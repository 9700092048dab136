//! Reading the output of `git diff`.

use regex::Regex;
use vstd::prelude::*;
use vstd::utf8::is_ascii_chars;

use crate::error::DiffError;
use crate::names::NameMap;
use crate::patterns::{
    captures, compile, compiles_to, is_file_header, is_hunk_header, regex_groups, regex_of,
    replace_all, without_colours, ANSI_ESCAPE, FILE_HEADER, HUNK_HEADER,
};
use crate::text::{
    lines_of, number_of, parse_number, split_lines, starts_with, texts, to_chars, trim_end,
    trimmed_end,
};

verus! {

/// A line of one side of a diff, with its number.
pub type LineChange = (usize, String);

/// The lines of the old and of the new version of a file.
pub type FileDiff = (Vec<LineChange>, Vec<LineChange>);

/// The diffs of files by path.
pub type FileChanges = NameMap<FileDiff>;

/// Numbered lines, as numbers and texts.
pub open spec fn numbered(lines: Seq<LineChange>) -> Seq<(usize, Seq<char>)> {
    Seq::new(lines.len(), |i: int| (lines[i].0, lines[i].1@))
}

/// Both sides of the diff of a file, as numbers and texts.
pub open spec fn sides(d: FileDiff) -> (Seq<(usize, Seq<char>)>, Seq<(usize, Seq<char>)>) {
    (numbered(d.0@), numbered(d.1@))
}

/// The diffs of files by path, as numbers and texts.
pub open spec fn all_sides(m: Map<Seq<char>, FileDiff>) -> Map<
    Seq<char>,
    (Seq<(usize, Seq<char>)>, Seq<(usize, Seq<char>)>),
> {
    m.map_values(|d: FileDiff| sides(d))
}

/// What a line of a diff says.
pub enum DiffLine {
    /// A note about a missing newline at the end of a file.
    Marker,
    /// The diff of this file begins.
    File(String),
    /// A hunk begins at these lines of the old and the new version.
    Hunk(usize, usize),
    /// Something about the file that is not its content.
    Metadata,
    /// A line of the old version only.
    Removed(String),
    /// A line of the new version only.
    Added(String),
    /// A line of both versions.
    Context(String),
}

/// The mathematical reading of a [`DiffLine`].
pub enum LineKind {
    Marker,
    File(Seq<char>),
    Hunk(usize, usize),
    Metadata,
    Removed(Seq<char>),
    Added(Seq<char>),
    Context(Seq<char>),
}

impl View for DiffLine {
    type V = LineKind;

    open spec fn view(&self) -> LineKind {
        match *self {
            DiffLine::Marker => LineKind::Marker,
            DiffLine::File(s) => LineKind::File(s@),
            DiffLine::Hunk(a, b) => LineKind::Hunk(a, b),
            DiffLine::Metadata => LineKind::Metadata,
            DiffLine::Removed(s) => LineKind::Removed(s@),
            DiffLine::Added(s) => LineKind::Added(s@),
            DiffLine::Context(s) => LineKind::Context(s@),
        }
    }
}

/// A line that git adds around the content of a file.
pub open spec fn is_metadata(s: Seq<char>) -> bool {
    ||| "index"@.is_prefix_of(s)
    ||| "---"@.is_prefix_of(s)
    ||| "+++"@.is_prefix_of(s)
    ||| "@@"@.is_prefix_of(s)
    ||| "new file mode"@.is_prefix_of(s)
    ||| "new mode"@.is_prefix_of(s)
    ||| "old mode"@.is_prefix_of(s)
    ||| "deleted file mode"@.is_prefix_of(s)
    ||| "rename from"@.is_prefix_of(s)
    ||| "rename to"@.is_prefix_of(s)
    ||| "copy from"@.is_prefix_of(s)
    ||| "copy to"@.is_prefix_of(s)
    ||| "similarity index"@.is_prefix_of(s)
    ||| "dissimilarity index"@.is_prefix_of(s)
    ||| "Binary files"@.is_prefix_of(s)
}

fn metadata_line(s: &[char]) -> (r: bool)
    ensures
        r == is_metadata(s@),
{
    starts_with(s, "index") || starts_with(s, "---") || starts_with(s, "+++") || starts_with(
        s,
        "@@",
    ) || starts_with(s, "new file mode") || starts_with(s, "new mode") || starts_with(
        s,
        "old mode",
    ) || starts_with(s, "deleted file mode") || starts_with(s, "rename from") || starts_with(
        s,
        "rename to",
    ) || starts_with(s, "copy from") || starts_with(s, "copy to") || starts_with(
        s,
        "similarity index",
    ) || starts_with(s, "dissimilarity index") || starts_with(s, "Binary files")
}

/// A line number of a hunk header; 1 where it cannot be read.
pub open spec fn hunk_number(s: Seq<char>) -> usize {
    match number_of(s) {
        Some(n) => n,
        None => 1,
    }
}

/// What a line without colours says, given the path that it names if it is a
/// file header and the two numbers that it names if it is a hunk header.
pub open spec fn kind_of(
    line: Seq<char>,
    header: Option<Seq<char>>,
    hunk: Option<(Seq<char>, Seq<char>)>,
) -> LineKind {
    match header {
        Some(path) => LineKind::File(path),
        None => match hunk {
            Some((a, b)) => LineKind::Hunk(hunk_number(a), hunk_number(b)),
            None => if is_metadata(line) {
                LineKind::Metadata
            } else if line.len() > 0 && line[0] == '-' {
                LineKind::Removed(line)
            } else if line.len() > 0 && line[0] == '+' {
                LineKind::Added(line)
            } else {
                LineKind::Context(line)
            },
        },
    }
}

/// What a line without colours says, given what was recognised in it.
pub fn classify_line(line: String, header: Option<String>, hunk: Option<(String, String)>) -> (r:
    DiffLine)
    ensures
        r@ == kind_of(line@, header.deep_view(), hunk.deep_view()),
{
    if let Some(path) = header {
        return DiffLine::File(path);
    }
    if let Some((a, b)) = hunk {
        let base: usize = match parse_number(&a) {
            Some(n) => n,
            None => 1,
        };
        let head: usize = match parse_number(&b) {
            Some(n) => n,
            None => 1,
        };
        return DiffLine::Hunk(base, head);
    }
    let chars: Vec<char> = to_chars(&line);
    if metadata_line(&chars) {
        DiffLine::Metadata
    } else if chars.len() > 0 && chars[0] == '-' {
        DiffLine::Removed(line)
    } else if chars.len() > 0 && chars[0] == '+' {
        DiffLine::Added(line)
    } else {
        DiffLine::Context(line)
    }
}

/// The compiled form of one of the patterns of a diff.
pub open spec fn compiled(pattern: Seq<char>) -> Regex {
    regex_of(pattern)->Ok_0
}

/// `line` is a file header for the old file `a`, the longest that it can be
/// read as, and the new file `b`.
pub open spec fn is_header_of(line: Seq<char>, a: Seq<char>, b: Seq<char>) -> bool {
    &&& is_file_header(line, a, b)
    &&& forall|c: Seq<char>, d: Seq<char>| #[trigger]
        is_file_header(line, c, d) ==> c.len() <= a.len()
}

/// The path that a file header names: that of the new version.
pub open spec fn header_path(line: Seq<char>) -> Option<Seq<char>> {
    if exists|a: Seq<char>, b: Seq<char>| is_header_of(line, a, b) {
        let (a, b) = choose|a: Seq<char>, b: Seq<char>| is_header_of(line, a, b);
        Some(b)
    } else {
        None
    }
}

/// The line numbers that a hunk header names, as its expression captures them.
pub open spec fn hunk_numbers(line: Seq<char>) -> Option<(Seq<char>, Seq<char>)> {
    match regex_groups(compiled(HUNK_HEADER@), line) {
        Some(g) => Some((g[1]->0, g[2]->0)),
        None => None,
    }
}

/// What a line of the output of `git diff` says.
pub open spec fn line_kind(raw: Seq<char>) -> LineKind {
    let line = trimmed_end(raw);
    if "\\ "@.is_prefix_of(line) {
        LineKind::Marker
    } else {
        let plain = without_colours(line);
        kind_of(plain, header_path(plain), hunk_numbers(plain))
    }
}

/// The hunk headers of a diff are read as what they look like: in ASCII digits
/// they give their numbers; and neither a line with another beginning nor any
/// other line in ASCII is one.
pub open spec fn plainly_read(raw: Seq<char>) -> bool {
    let line = without_colours(trimmed_end(raw));
    !"\\ "@.is_prefix_of(trimmed_end(raw)) ==> {
        &&& forall|a: Seq<char>, x: Seq<char>, b: Seq<char>, y: Seq<char>, rest: Seq<char>|
            #[trigger]
            is_hunk_header(line, a, x, b, y, rest) ==> hunk_numbers(line) == Some((a, b))
        &&& !"@@ -"@.is_prefix_of(line) ==> hunk_numbers(line) is None
        &&& is_ascii_chars(line) && hunk_numbers(line) is Some ==> exists|
            a: Seq<char>,
            x: Seq<char>,
            b: Seq<char>,
            y: Seq<char>,
            rest: Seq<char>,
        | #[trigger]
            is_hunk_header(line, a, x, b, y, rest)
    }
}

/// The hunk headers of all these lines are read as what they look like.
pub open spec fn all_plainly_read(lines: Seq<Seq<char>>) -> bool {
    forall|i: int| 0 <= i < lines.len() ==> plainly_read(#[trigger] lines[i])
}

/// Two readings of a file header with old names of one length have the same new
/// name.
pub proof fn lemma_same_header(
    line: Seq<char>,
    a: Seq<char>,
    b: Seq<char>,
    c: Seq<char>,
    d: Seq<char>,
)
    requires
        is_file_header(line, a, b),
        is_file_header(line, c, d),
        a.len() == c.len(),
    ensures
        b == d,
{
    let p = "diff --git a/"@;
    let q = " b/"@;
    let k = p.len() + a.len() + q.len();
    assert(b =~= line.skip(k as int));
    assert(d =~= line.skip(k as int));
}

/// The compiled patterns of a diff.
struct DiffPatterns {
    file: Regex,
    hunk: Regex,
    ansi: Regex,
}

/// Compiles a pattern that is known to be well formed.
fn compile_fixed(pattern: &str) -> (re: Regex)
    requires
        pattern@ == FILE_HEADER@ || pattern@ == HUNK_HEADER@ || pattern@ == ANSI_ESCAPE@,
    ensures
        compiles_to(pattern@, re),
{
    compile(pattern).unwrap()
}

impl DiffPatterns {
    spec fn wf(self) -> bool {
        &&& compiles_to(FILE_HEADER@, self.file)
        &&& compiles_to(HUNK_HEADER@, self.hunk)
        &&& compiles_to(ANSI_ESCAPE@, self.ansi)
    }

    fn new() -> (r: Self)
        ensures
            r.wf(),
    {
        DiffPatterns {
            file: compile_fixed(FILE_HEADER),
            hunk: compile_fixed(HUNK_HEADER),
            ansi: compile_fixed(ANSI_ESCAPE),
        }
    }

    fn read_line(&self, raw: &str) -> (r: DiffLine)
        requires
            self.wf(),
        ensures
            r@ == line_kind(raw@),
            plainly_read(raw@),
    {
        let line: String = trim_end(raw);
        if starts_with(&to_chars(&line), "\\ ") {
            return DiffLine::Marker;
        }
        proof {
            reveal_strlit("");
        }
        let plain: String = replace_all(&self.ansi, &line, "");
        let header: Option<String> = match captures(&self.file, &plain) {
            Some(mut groups) => groups.remove(2),
            None => None,
        };
        let hunk: Option<(String, String)> = match captures(&self.hunk, &plain) {
            Some(mut groups) => match (groups.remove(2), groups.remove(1)) {
                (Some(b), Some(a)) => Some((a, b)),
                _ => None,
            },
            None => None,
        };
        proof {
            if header is Some {
                let g = regex_groups(self.file, plain@)->0;
                assert(is_header_of(plain@, g[1]->0, g[2]->0));
                let (a, b) = choose|a: Seq<char>, b: Seq<char>| is_header_of(plain@, a, b);
                lemma_same_header(plain@, a, b, g[1]->0, g[2]->0);
            }
        }
        classify_line(plain, header, hunk)
    }
}

/// A diff read up to some line: the files that are complete, the file that
/// is being read (none at first), its lines so far, and the numbers that the
/// next line of either version gets.
pub struct Reading {
    pub files: Map<Seq<char>, (Seq<(usize, Seq<char>)>, Seq<(usize, Seq<char>)>)>,
    pub current: Seq<char>,
    pub base: Seq<(usize, Seq<char>)>,
    pub head: Seq<(usize, Seq<char>)>,
    pub next_base: nat,
    pub next_head: nat,
}

/// Nothing read yet.
pub open spec fn nothing_read() -> Reading {
    Reading {
        files: Map::empty(),
        current: Seq::empty(),
        base: Seq::empty(),
        head: Seq::empty(),
        next_base: 1,
        next_head: 1,
    }
}

/// The files of a reading, the current one included.
pub open spec fn files_read(r: Reading) -> Map<
    Seq<char>,
    (Seq<(usize, Seq<char>)>, Seq<(usize, Seq<char>)>),
> {
    if r.current.len() > 0 {
        r.files.insert(r.current, (r.base, r.head))
    } else {
        r.files
    }
}

/// One more line. A file header completes the current file; lines before the
/// first header are kept for the first file.
pub open spec fn read_on(r: Reading, line: LineKind) -> Reading {
    match line {
        LineKind::Marker => r,
        LineKind::Metadata => r,
        LineKind::File(path) => Reading {
            files: files_read(r),
            current: path,
            base: if r.current.len() > 0 {
                Seq::empty()
            } else {
                r.base
            },
            head: if r.current.len() > 0 {
                Seq::empty()
            } else {
                r.head
            },
            next_base: 1,
            next_head: 1,
        },
        LineKind::Hunk(base, head) => Reading {
            next_base: base as nat,
            next_head: head as nat,
            ..r
        },
        LineKind::Removed(text) => Reading {
            base: r.base.push((r.next_base as usize, text)),
            next_base: r.next_base + 1,
            ..r
        },
        LineKind::Added(text) => Reading {
            head: r.head.push((r.next_head as usize, text)),
            next_head: r.next_head + 1,
            ..r
        },
        LineKind::Context(text) => Reading {
            base: r.base.push((r.next_base as usize, text)),
            head: r.head.push((r.next_head as usize, text)),
            next_base: r.next_base + 1,
            next_head: r.next_head + 1,
            ..r
        },
    }
}

/// The diff read up to the end of `lines`.
pub open spec fn reading(lines: Seq<Seq<char>>) -> Reading
    decreases lines.len(),
{
    if lines.len() == 0 {
        nothing_read()
    } else {
        read_on(reading(lines.drop_last()), line_kind(lines.last()))
    }
}

/// Both line numbers fit a `usize`.
pub open spec fn in_range(r: Reading) -> bool {
    r.next_base <= usize::MAX && r.next_head <= usize::MAX
}

/// No line number runs out of range anywhere in `lines`.
pub open spec fn countable(lines: Seq<Seq<char>>) -> bool {
    forall|k: int| 0 <= k <= lines.len() ==> in_range(#[trigger] reading(lines.take(k)))
}

/// A diff that is being read.
pub struct DiffReader {
    files: FileChanges,
    current: String,
    base: Vec<LineChange>,
    head: Vec<LineChange>,
    next_base: usize,
    next_head: usize,
}

impl View for DiffReader {
    type V = Reading;

    closed spec fn view(&self) -> Reading {
        Reading {
            files: all_sides(self.files@),
            current: self.current@,
            base: numbered(self.base@),
            head: numbered(self.head@),
            next_base: self.next_base as nat,
            next_head: self.next_head as nat,
        }
    }
}

proof fn lemma_numbered_push(lines: Seq<LineChange>, n: usize, s: String)
    ensures
        numbered(lines.push((n, s))) == numbered(lines).push((n, s@)),
{
    assert(numbered(lines.push((n, s))) =~= numbered(lines).push((n, s@)));
}

/// Adding a diff to a map adds its numbers and texts.
pub proof fn lemma_all_sides_insert(m: Map<Seq<char>, FileDiff>, name: Seq<char>, d: FileDiff)
    ensures
        all_sides(m.insert(name, d)) == all_sides(m).insert(name, sides(d)),
{
    assert(all_sides(m.insert(name, d)) =~= all_sides(m).insert(name, sides(d)));
}

impl DiffReader {
    /// A reader at the start of a diff.
    pub fn new() -> (r: Self)
        ensures
            r@ == nothing_read(),
    {
        let r = DiffReader {
            files: NameMap::new(),
            current: String::new(),
            base: Vec::new(),
            head: Vec::new(),
            next_base: 1,
            next_head: 1,
        };
        assert(all_sides(r.files@) =~= Map::empty());
        assert(numbered(r.base@) =~= Seq::empty());
        assert(numbered(r.head@) =~= Seq::empty());
        r
    }

    /// Whether the line numbers stay in range over one more line.
    pub fn can_count(&self, line: &DiffLine) -> (r: bool)
        ensures
            r == in_range(read_on(self@, line@)),
    {
        match line {
            DiffLine::Removed(_) => self.next_base < usize::MAX,
            DiffLine::Added(_) => self.next_head < usize::MAX,
            DiffLine::Context(_) => self.next_base < usize::MAX && self.next_head < usize::MAX,
            _ => true,
        }
    }

    /// Completes the current file, if there is one.
    fn complete(&mut self)
        ensures
            final(self)@ == (Reading {
                files: files_read(old(self)@),
                current: Seq::empty(),
                base: if old(self)@.current.len() > 0 {
                    Seq::empty()
                } else {
                    old(self)@.base
                },
                head: if old(self)@.current.len() > 0 {
                    Seq::empty()
                } else {
                    old(self)@.head
                },
                ..old(self)@
            }),
    {
        if self.current.as_str().is_empty() {
            assert(self.current@ =~= Seq::<char>::empty());
            return;
        }
        let mut name: String = String::new();
        let mut base: Vec<LineChange> = Vec::new();
        let mut head: Vec<LineChange> = Vec::new();
        assert(numbered(base@) =~= Seq::empty());
        std::mem::swap(&mut name, &mut self.current);
        std::mem::swap(&mut base, &mut self.base);
        std::mem::swap(&mut head, &mut self.head);
        proof {
            lemma_all_sides_insert(self.files@, name@, (base, head));
        }
        self.files.insert(name, (base, head));
    }

    /// Takes in one more line.
    pub fn read(&mut self, line: DiffLine)
        requires
            in_range(read_on(old(self)@, line@)),
        ensures
            final(self)@ == read_on(old(self)@, line@),
    {
        match line {
            DiffLine::Marker => {},
            DiffLine::Metadata => {},
            DiffLine::File(path) => {
                self.complete();
                self.current = path;
                self.next_base = 1;
                self.next_head = 1;
            },
            DiffLine::Hunk(base, head) => {
                self.next_base = base;
                self.next_head = head;
            },
            DiffLine::Removed(text) => {
                proof {
                    lemma_numbered_push(self.base@, self.next_base, text);
                }
                self.base.push((self.next_base, text));
                self.next_base = self.next_base + 1;
            },
            DiffLine::Added(text) => {
                proof {
                    lemma_numbered_push(self.head@, self.next_head, text);
                }
                self.head.push((self.next_head, text));
                self.next_head = self.next_head + 1;
            },
            DiffLine::Context(text) => {
                let copy: String = text.clone();
                proof {
                    lemma_numbered_push(self.base@, self.next_base, text);
                    lemma_numbered_push(self.head@, self.next_head, copy);
                }
                self.base.push((self.next_base, text));
                self.head.push((self.next_head, copy));
                self.next_base = self.next_base + 1;
                self.next_head = self.next_head + 1;
            },
        }
    }

    /// The files of the diff.
    pub fn finish(self) -> (r: FileChanges)
        ensures
            all_sides(r@) == files_read(self@),
    {
        let mut reader: DiffReader = self;
        reader.complete();
        reader.files
    }
}

/// Reads the output of `git diff`, as long as the line numbers can be counted.
fn read_output(diff_output: &str) -> (r: Option<FileChanges>)
    ensures
        match r {
            Some(changes) => countable(lines_of(diff_output@)) && all_sides(changes@) == files_read(
                reading(lines_of(diff_output@)),
            ),
            None => !countable(lines_of(diff_output@)),
        },
        all_plainly_read(lines_of(diff_output@)),
{
    let patterns: DiffPatterns = DiffPatterns::new();
    let lines: Vec<String> = split_lines(diff_output);
    let ghost all = lines_of(diff_output@);
    let mut reader: DiffReader = DiffReader::new();
    let mut counted: bool = true;
    let mut i: usize = 0;
    assert(all.take(0) =~= Seq::<Seq<char>>::empty());
    while i < lines.len()
        invariant
            i <= lines@.len(),
            patterns.wf(),
            all == lines_of(diff_output@),
            texts(lines@) == all,
            counted ==> reader@ == reading(all.take(i as int)),
            counted ==> forall|k: int| 0 <= k <= i ==> in_range(#[trigger] reading(all.take(k))),
            !counted ==> !countable(all),
            forall|k: int| 0 <= k < i ==> plainly_read(#[trigger] all[k]),
        decreases lines@.len() - i,
    {
        let line: DiffLine = patterns.read_line(&lines[i]);
        proof {
            assert(all.take(i + 1).drop_last() =~= all.take(i as int));
            assert(all.take(i + 1).last() == lines@[i as int]@);
        }
        if counted && reader.can_count(&line) {
            reader.read(line);
        } else {
            assert(counted ==> !in_range(reading(all.take(i + 1))));
            counted = false;
        }
        i = i + 1;
    }
    assert(all.take(i as int) =~= all);
    if counted {
        Some(reader.finish())
    } else {
        None
    }
}

/// Whether the line numbers of a diff can be counted: no hunk begins so close
/// to the largest number that its lines run past it.
pub fn is_countable(diff_output: &str) -> (r: bool)
    ensures
        r == countable(lines_of(diff_output@)),
        all_plainly_read(lines_of(diff_output@)),
{
    read_output(diff_output).is_some()
}

/// Reads the output of `git diff`.
pub fn parse_diff_output(diff_output: &str) -> (r: Result<FileChanges, DiffError>)
    requires
        countable(lines_of(diff_output@)),
    ensures
        r is Ok,
        all_sides(r->Ok_0@) == files_read(reading(lines_of(diff_output@))),
        all_plainly_read(lines_of(diff_output@)),
{
    Ok(read_output(diff_output).unwrap())
}

} // verus!
