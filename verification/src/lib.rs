//! The logic of a terminal viewer for git diffs: what git shows is read into
//! changes of files, the files are filtered and browsed, changes are chosen
//! from a diff and written back, and lines are commented on.
//!
//! Everything here is a function of values that the surrounding program hands
//! in. It runs git, reads and writes files, talks to the terminal and to the
//! network, and does what the functions here ask it to.

pub mod bourne;
pub mod comment;
pub mod commit;
pub mod commit_laws;
pub mod contents;
pub mod edits;
pub mod error;
pub mod filter;
pub mod git;
pub mod git_laws;
pub mod glob_laws;
pub mod input;
pub mod json;
pub mod key_laws;
pub mod keys;
pub mod labels;
pub mod mouse;
pub mod moves;
pub mod names;
pub mod outcome;
pub mod parse;
pub mod parse_laws;
pub mod patterns;
pub mod place_laws;
pub mod positions;
pub mod quoting;
pub mod reading_laws;
pub mod refresh;
pub mod session_laws;
pub mod sources;
pub mod state;
pub mod text;
pub mod text_laws;
pub mod ui_laws;
pub mod view_laws;
pub mod weave;
