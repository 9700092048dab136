//! What the screen shows and where the user is.

use vstd::prelude::*;

use crate::filter::{FileFilter, Filter};
use crate::names::NameMap;
use crate::parse::{all_sides, FileChanges, LineChange};
use crate::sources::{DiffSource, Source};
use crate::text::texts;

verus! {

/// The part of the screen that keys go to.
#[derive(Clone, Copy, Debug, PartialEq, Eq, Structural)]
pub enum Pane {
    FileList,
    DiffContent,
}

/// How a diff is laid out.
#[derive(Clone, Copy, Debug, PartialEq, Eq, Structural)]
pub enum ViewMode {
    SideBySide,
    Unified,
}

/// What the user is doing: reading a diff, or choosing changes from it.
#[derive(Clone, Copy, Debug, PartialEq, Eq, Structural)]
pub enum AppMode {
    Diff,
    Rebase,
}

/// What the user has decided about a change.
#[derive(Clone, Copy, Debug, PartialEq, Eq, Structural)]
pub enum ChangeState {
    Unselected,
    Accepted,
    Rejected,
}

/// A change to decide about.
pub struct Change {
    /// The line in the version that it stands in.
    pub line_num: usize,
    pub content: String,
    /// For a line of the old version, the new line that takes its place.
    pub paired_content: Option<String>,
    pub state: ChangeState,
    /// The line stands in the old version.
    pub is_base: bool,
    /// Lines around it.
    pub context: Vec<LineChange>,
    /// For a line of the new version, where it goes in the old one.
    pub base_insert_pos: Option<usize>,
}

/// A comment that is being written.
pub struct CommentInput {
    pub file: String,
    pub line_num: usize,
    pub line_content: String,
    pub text: String,
    /// Where the cursor is in `text`, in bytes.
    pub cursor_pos: usize,
}

/// The mathematical reading of a [`CommentInput`].
pub struct Comment {
    pub file: Seq<char>,
    pub line_num: usize,
    pub line_content: Seq<char>,
    pub text: Seq<char>,
    pub cursor_pos: usize,
}

impl View for CommentInput {
    type V = Comment;

    open spec fn view(&self) -> Comment {
        Comment {
            file: self.file@,
            line_num: self.line_num,
            line_content: self.line_content@,
            text: self.text@,
            cursor_pos: self.cursor_pos,
        }
    }
}

/// A set of colours, by its name.
pub struct Theme {
    pub name: String,
}

impl View for Theme {
    type V = Seq<char>;

    open spec fn view(&self) -> Seq<char> {
        self.name@
    }
}

impl Clone for Theme {
    fn clone(&self) -> (r: Self)
        ensures
            r@ == self@,
    {
        Theme { name: self.name.clone() }
    }
}

impl Theme {
    /// Light on dark.
    pub fn dark() -> (r: Self)
        ensures
            r@ == "dark"@,
    {
        Theme { name: "dark".to_string() }
    }

    /// Dark on light.
    pub fn light() -> (r: Self)
        ensures
            r@ == "light"@,
    {
        Theme { name: "light".to_string() }
    }
}

/// The state of the program.
pub struct App {
    pub file_changes: FileChanges,
    pub left_label: String,
    pub right_label: String,
    pub diff_source: DiffSource,
    pub current_file_idx: usize,
    pub file_names: Vec<String>,
    pub scroll_positions: NameMap<usize>,
    pub focused_pane: Pane,
    pub view_mode: ViewMode,
    pub app_mode: AppMode,
    pub rebase_changes: NameMap<Vec<Change>>,
    pub current_change_idx: usize,
    pub rebase_notification: Option<String>,
    pub show_rebase_modal: bool,
    pub status_message: Option<String>,
    pub show_help_modal: bool,
    pub theme: Theme,
    pub theme_cycle: Vec<Theme>,
    pub theme_cycle_idx: usize,
    pub file_filter: FileFilter,
    pub comment_input: Option<CommentInput>,
    pub cursor_line: usize,
}

/// The mathematical reading of an [`App`].
#[verifier::ext_equal]
pub struct AppView {
    pub file_changes: Map<Seq<char>, (Seq<(usize, Seq<char>)>, Seq<(usize, Seq<char>)>)>,
    pub left_label: Seq<char>,
    pub right_label: Seq<char>,
    pub diff_source: Source,
    pub current_file_idx: usize,
    pub file_names: Seq<Seq<char>>,
    pub scroll_positions: Map<Seq<char>, usize>,
    pub focused_pane: Pane,
    pub view_mode: ViewMode,
    pub app_mode: AppMode,
    pub rebase_changes: Map<Seq<char>, Seq<Change>>,
    pub current_change_idx: usize,
    pub rebase_notification: Option<Seq<char>>,
    pub show_rebase_modal: bool,
    pub status_message: Option<Seq<char>>,
    pub show_help_modal: bool,
    pub theme: Seq<char>,
    pub theme_cycle: Seq<Seq<char>>,
    pub theme_cycle_idx: usize,
    pub file_filter: Filter,
    pub comment_input: Option<Comment>,
    pub cursor_line: usize,
}

/// The changes of each file.
pub open spec fn change_lists(m: Map<Seq<char>, Vec<Change>>) -> Map<Seq<char>, Seq<Change>> {
    m.map_values(|v: Vec<Change>| v@)
}

/// The names of themes.
pub open spec fn theme_names(themes: Seq<Theme>) -> Seq<Seq<char>> {
    Seq::new(themes.len(), |i: int| themes[i]@)
}

impl View for App {
    type V = AppView;

    open spec fn view(&self) -> AppView {
        AppView {
            file_changes: all_sides(self.file_changes@),
            left_label: self.left_label@,
            right_label: self.right_label@,
            diff_source: self.diff_source@,
            current_file_idx: self.current_file_idx,
            file_names: texts(self.file_names@),
            scroll_positions: self.scroll_positions@,
            focused_pane: self.focused_pane,
            view_mode: self.view_mode,
            app_mode: self.app_mode,
            rebase_changes: change_lists(self.rebase_changes@),
            current_change_idx: self.current_change_idx,
            rebase_notification: self.rebase_notification.deep_view(),
            show_rebase_modal: self.show_rebase_modal,
            status_message: self.status_message.deep_view(),
            show_help_modal: self.show_help_modal,
            theme: self.theme@,
            theme_cycle: theme_names(self.theme_cycle@),
            theme_cycle_idx: self.theme_cycle_idx,
            file_filter: self.file_filter@,
            comment_input: match self.comment_input {
                Some(c) => Some(c@),
                None => None,
            },
            cursor_line: self.cursor_line,
        }
    }
}

/// The file that the user is at.
pub open spec fn current_file(a: AppView) -> Option<Seq<char>> {
    if a.current_file_idx < a.file_names.len() {
        Some(a.file_names[a.current_file_idx as int])
    } else {
        None
    }
}

/// The changes to decide about in the file that the user is at.
pub open spec fn current_changes(a: AppView) -> Option<Seq<Change>> {
    match current_file(a) {
        Some(file) => if a.rebase_changes.contains_key(file) {
            Some(a.rebase_changes[file])
        } else {
            None
        },
        None => None,
    }
}

impl App {
    /// The file that the user is at.
    pub fn current_file(&self) -> (r: Option<&String>)
        ensures
            match r {
                Some(file) => current_file(self@) == Some(file@),
                None => current_file(self@) is None,
            },
    {
        if self.current_file_idx < self.file_names.len() {
            Some(&self.file_names[self.current_file_idx])
        } else {
            None
        }
    }

    /// The changes to decide about in the file that the user is at.
    pub fn current_changes(&self) -> (r: Option<&Vec<Change>>)
        ensures
            match r {
                Some(changes) => current_changes(self@) == Some(changes@),
                None => current_changes(self@) is None,
            },
    {
        match self.current_file() {
            Some(file) => self.rebase_changes.get(file),
            None => None,
        }
    }
}

} // verus!
