# giff

The verified logic of a terminal viewer for git diffs.

- `src/` is the library. Every function has a contract that Verus proves. It
  reads what git prints, filters and browses the files of a diff, chooses
  changes from it and writes them back, and comments on lines. It does no input
  or output: a step that needs some is asked for in one function and its answer
  taken in by another.
- `app/` is the program around it: git, files, the terminal and HTTP.
- `tests/` run the compiled library.

The modules of the library:

| module | what it is about |
| --- | --- |
| `text`, `names` | strings, lines, numbers, and maps with names for keys |
| `quoting` | paths that git prints in quotes |
| `patterns`, `json` | what is used of `regex` and `serde_json` |
| `parse`, `parse_laws` | the output of `git diff` |
| `labels`, `git`, `sources` | what is asked of git, and what the answers mean |
| `filter` | choosing files by glob patterns |
| `edits`, `weave`, `contents` | changing the lines of a file |
| `state`, `input` | what the screen shows and what comes in |
| `moves`, `comment`, `commit`, `refresh` | what the user can do |
| `keys`, `mouse`, `outcome`, `ui_laws` | keys, the mouse, answers, and what holds of all of them |
| `bourne` | sending comments to a session |
| `error` | what can go wrong with git |

What the outside crates do is stated where they are called, in `patterns` and
`json`; so is what is used of `String::push`, in `text`, and of
`std::str::from_utf8`, in `quoting`. These statements are not proved.
