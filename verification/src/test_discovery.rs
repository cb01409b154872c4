//! Discovered test functions, and the sidecar files that list them.
//!
//! A sidecar file has one line per test, with five fields between tabs:
//!
//! ```text
//! <module>::<name>  int|void  0|1  <file>  <line>
//! ```
//!
//! The third field says whether the test is ignored. Empty lines do not count.
use vstd::prelude::*;
use vstd::string::*;

use crate::text::{chars_of, decimal, is_digit, law_decimal_reads_back, lemma_decimal_digits,
    lemma_pieces_push, lemma_pieces_single, parse_u32, pieces, push_decimal, same_text, some_text,
    split_text, text_of, texts, u32_error, u32_error_text, u32_of};

verus! {

/// Whether a test function returns `int` or `void`. The generated runner
/// looks at the return value of the former only.
#[derive(Debug, Clone, Copy, PartialEq, Eq, Structural)]
pub enum FnKind {
    Int,
    Void,
}

/// One discovered test function.
#[derive(Debug, Clone, PartialEq, Eq)]
pub struct TestEntry {
    /// Qualified name of the module that defines the function.
    pub module: String,
    /// Bare function name, without the module.
    pub name: String,
    pub fn_kind: FnKind,
    /// Ignored tests are listed by the runner but never run.
    pub ignored: bool,
    /// Source file.
    pub file: String,
    /// 1-based source line of the signature.
    pub line: u32,
}

/// What a [`TestEntry`] says, over mathematical text.
pub struct TestModel {
    pub module: Seq<char>,
    pub name: Seq<char>,
    pub fn_kind: FnKind,
    pub ignored: bool,
    pub file: Seq<char>,
    pub line: nat,
}

impl View for TestEntry {
    type V = TestModel;

    open spec fn view(&self) -> TestModel {
        TestModel {
            module: self.module@,
            name: self.name@,
            fn_kind: self.fn_kind,
            ignored: self.ignored,
            file: self.file@,
            line: self.line as nat,
        }
    }
}

/// The models of a list of entries.
pub open spec fn entry_models(entries: Seq<TestEntry>) -> Seq<TestModel> {
    entries.map_values(|e: TestEntry| e@)
}

// ---------------------------------------------------------------------------
// Lines
// ---------------------------------------------------------------------------

/// A line without the carriage return that belongs to its end.
pub open spec fn chomped(line: Seq<char>) -> Seq<char> {
    if line.len() > 0 && line.last() == '\r' {
        line.drop_last()
    } else {
        line
    }
}

/// The lines of a text, as the standard library's `str::lines` gives them:
/// each ends with a line feed, which a carriage return may precede; the end
/// of the last line may be missing.
pub open spec fn text_lines(s: Seq<char>) -> Seq<Seq<char>> {
    let parts = pieces(s, '\n');
    let ended = parts.drop_last().map_values(|line: Seq<char>| chomped(line));
    if parts.last().len() == 0 {
        ended
    } else {
        ended.push(parts.last())
    }
}

/// The lines of a text.
pub fn lines_of(s: &str) -> (r: Vec<String>)
    ensures
        texts(r@) == text_lines(s@),
{
    let parts: Vec<String> = split_text(s, '\n');
    let ghost all = texts(parts@);
    let ghost ended = all.drop_last().map_values(|line: Seq<char>| chomped(line));
    let n: usize = parts.len();
    let mut out: Vec<String> = Vec::new();
    let mut i: usize = 0;
    while i + 1 < n
        invariant
            n == parts@.len(),
            i < n,
            all == texts(parts@),
            ended == all.drop_last().map_values(|line: Seq<char>| chomped(line)),
            texts(out@) =~= ended.take(i as int),
        decreases n - i,
    {
        let ghost before = texts(out@);
        let line: Vec<char> = chars_of(parts[i].as_str());
        let end: usize = if line.len() > 0 && line[line.len() - 1] == '\r' {
            line.len() - 1
        } else {
            line.len()
        };
        let kept: String = text_of(line.as_slice(), 0, end);
        proof {
            assert(all.drop_last()[i as int] == line@);
            assert(kept@ =~= chomped(line@));
            assert(ended[i as int] == kept@);
        }
        out.push(kept);
        assert(texts(out@) =~= before.push(ended[i as int]));
        i = i + 1;
    }
    assert(texts(out@) =~= ended);
    assert(all.last() == parts@[i as int]@);
    if !parts[i].as_str().is_empty() {
        let ghost before = texts(out@);
        out.push(parts[i].clone());
        assert(texts(out@) =~= before.push(all.last()));
    }
    out
}

// ---------------------------------------------------------------------------
// Fields
// ---------------------------------------------------------------------------

/// The last place where `::` stands among the first `n` characters.
pub open spec fn last_colons(s: Seq<char>, n: int) -> Option<int>
    decreases n,
{
    if n < 2 {
        None
    } else if s[n - 2] == ':' && s[n - 1] == ':' {
        Some(n - 2)
    } else {
        last_colons(s, n - 1)
    }
}

/// Where the name of a test is set off from its module: at the last `::`.
pub open spec fn name_place(qname: Seq<char>) -> Option<int> {
    last_colons(qname, qname.len() as int)
}

/// The names of the fields, in order.
pub open spec fn field_label(i: int) -> Seq<char> {
    if i == 0 {
        "qname"@
    } else if i == 1 {
        "fn_kind"@
    } else if i == 2 {
        "ignored"@
    } else if i == 3 {
        "file"@
    } else {
        "line"@
    }
}

/// What is wrong with a line.
pub enum LineFault {
    /// The first field that is not there.
    Missing { field: int },
    TooMany,
    NoSeparator,
    FnKind,
    Ignored,
    Line,
}

/// The kind that a field stands for.
pub open spec fn fn_kind_of(field: Seq<char>) -> Option<FnKind> {
    if field == "int"@ {
        Some(FnKind::Int)
    } else if field == "void"@ {
        Some(FnKind::Void)
    } else {
        None
    }
}

/// The flag that a field stands for.
pub open spec fn flag_of(field: Seq<char>) -> Option<bool> {
    if field == "0"@ {
        Some(false)
    } else if field == "1"@ {
        Some(true)
    } else {
        None
    }
}

/// The line number that a field names. Lines are counted from 1.
pub open spec fn line_number(field: Seq<char>) -> Option<u32> {
    match u32_of(field) {
        Some(n) if n > 0 => Some(n),
        _ => None,
    }
}

/// What is wrong with a line that is not empty.
pub open spec fn line_fault(line: Seq<char>) -> Option<LineFault> {
    let fields = pieces(line, '\t');
    if fields.len() < 5 {
        Some(LineFault::Missing { field: fields.len() as int })
    } else if fields.len() > 5 {
        Some(LineFault::TooMany)
    } else if name_place(fields[0]) is None {
        Some(LineFault::NoSeparator)
    } else if fn_kind_of(fields[1]) is None {
        Some(LineFault::FnKind)
    } else if flag_of(fields[2]) is None {
        Some(LineFault::Ignored)
    } else if line_number(fields[4]) is None {
        Some(LineFault::Line)
    } else {
        None
    }
}

/// The test that a sound line lists.
pub open spec fn line_entry(line: Seq<char>) -> TestModel {
    let fields = pieces(line, '\t');
    let qname = fields[0];
    let at = name_place(qname)->0;
    TestModel {
        module: qname.take(at),
        name: qname.skip(at + 2),
        fn_kind: fn_kind_of(fields[1])->0,
        ignored: flag_of(fields[2])->0,
        file: fields[3],
        line: line_number(fields[4])->0 as nat,
    }
}

/// The tests that the first `n` lines list.
pub open spec fn listed_entries(lines: Seq<Seq<char>>, n: int) -> Seq<TestModel>
    decreases n,
{
    if n <= 0 {
        seq![]
    } else if lines[n - 1].len() == 0 {
        listed_entries(lines, n - 1)
    } else {
        listed_entries(lines, n - 1).push(line_entry(lines[n - 1]))
    }
}

/// Whether line `i` is empty or sound.
pub open spec fn line_is_sound(lines: Seq<Seq<char>>, i: int) -> bool {
    lines[i].len() == 0 || line_fault(lines[i]) is None
}

/// Whether every line before `n` is empty or sound.
pub open spec fn lines_are_sound(lines: Seq<Seq<char>>, n: int) -> bool {
    forall|i: int| 0 <= i < n ==> #[trigger] line_is_sound(lines, i)
}

// ---------------------------------------------------------------------------
// Errors
// ---------------------------------------------------------------------------

/// What is wrong with a line, with the offending text.
#[derive(Debug, Clone, PartialEq, Eq)]
pub enum SidecarErrorKind {
    Missing { label: String },
    TooMany,
    NoSeparator { qname: String },
    FnKind { field: String },
    Ignored { field: String },
    /// `cause` says why the field is no number, where it is none.
    Line { field: String, cause: Option<String> },
}

impl SidecarErrorKind {
    /// Whether this says what is wrong with a line.
    pub open spec fn reports(self, line: Seq<char>) -> bool {
        let fields = pieces(line, '\t');
        match line_fault(line) {
            Some(LineFault::Missing { field }) => self matches SidecarErrorKind::Missing { label }
                && label@ == field_label(field),
            Some(LineFault::TooMany) => self is TooMany,
            Some(LineFault::NoSeparator) => self matches SidecarErrorKind::NoSeparator { qname }
                && qname@ == fields[0],
            Some(LineFault::FnKind) => self matches SidecarErrorKind::FnKind { field } && field@
                == fields[1],
            Some(LineFault::Ignored) => self matches SidecarErrorKind::Ignored { field } && field@
                == fields[2],
            Some(LineFault::Line) => self matches SidecarErrorKind::Line { field, cause } && field@
                == fields[4] && some_text(cause) == if u32_of(fields[4]) is None {
                Some(u32_error(fields[4]))
            } else {
                None
            },
            None => false,
        }
    }
}

/// Why a sidecar file is refused.
#[derive(Debug, Clone, PartialEq, Eq)]
pub struct SidecarError {
    /// Path of the file.
    pub path: String,
    /// 1-based number of the line.
    pub line: usize,
    pub kind: SidecarErrorKind,
}

impl SidecarError {
    /// Whether this is the report on the line with index `i` of `lines`.
    pub open spec fn reports(self, path: Seq<char>, lines: Seq<Seq<char>>, i: int) -> bool {
        &&& 0 <= i < lines.len()
        &&& self.path@ == path
        &&& self.line == i + 1
        &&& lines[i].len() > 0
        &&& self.kind.reports(lines[i])
    }

    /// The text of the diagnostic.
    pub open spec fn text(self) -> Seq<char> {
        let at = "sidecar `"@ + self.path@ + "`: line "@ + decimal(self.line as nat);
        match self.kind {
            SidecarErrorKind::Missing { label } => at + " missing `"@ + label@ + "` field"@,
            SidecarErrorKind::TooMany => at
                + " has too many fields (expected 5 tab-separated)"@,
            SidecarErrorKind::NoSeparator { qname } => at + " qname `"@ + qname@
                + "` missing `::` separator"@,
            SidecarErrorKind::FnKind { field } => at + " fn_kind `"@ + field@
                + "` not in {int, void}"@,
            SidecarErrorKind::Ignored { field } => at + " ignored `"@ + field@
                + "` not in {0, 1}"@,
            SidecarErrorKind::Line { field, cause } => at + " line column `"@ + field@
                + "` is not a positive integer"@ + match cause {
                Some(c) => ": "@ + c@,
                None => Seq::empty(),
            },
        }
    }

    /// The diagnostic.
    pub fn message(&self) -> (r: String)
        ensures
            r@ == self.text(),
    {
        let mut out: String = "sidecar `".to_owned();
        out.append(self.path.as_str());
        out.append("`: line ");
        push_decimal(&mut out, self.line as u64);
        match &self.kind {
            SidecarErrorKind::Missing { label } => {
                out.append(" missing `");
                out.append(label.as_str());
                out.append("` field");
            },
            SidecarErrorKind::TooMany => {
                out.append(" has too many fields (expected 5 tab-separated)");
            },
            SidecarErrorKind::NoSeparator { qname } => {
                out.append(" qname `");
                out.append(qname.as_str());
                out.append("` missing `::` separator");
            },
            SidecarErrorKind::FnKind { field } => {
                out.append(" fn_kind `");
                out.append(field.as_str());
                out.append("` not in {int, void}");
            },
            SidecarErrorKind::Ignored { field } => {
                out.append(" ignored `");
                out.append(field.as_str());
                out.append("` not in {0, 1}");
            },
            SidecarErrorKind::Line { field, cause } => {
                out.append(" line column `");
                out.append(field.as_str());
                out.append("` is not a positive integer");
                let ghost before = out@;
                if let Some(c) = cause {
                    out.append(": ");
                    out.append(c.as_str());
                    assert(out@ =~= before + (": "@ + c@));
                } else {
                    assert(out@ =~= before + Seq::<char>::empty());
                }
            },
        }
        out
    }
}

// ---------------------------------------------------------------------------
// Parsing
// ---------------------------------------------------------------------------

fn find_name(qname: &Vec<char>) -> (r: Option<usize>)
    ensures
        match r {
            Some(i) => name_place(qname@) == Some(i as int) && i + 2 <= qname@.len(),
            None => name_place(qname@) is None,
        },
{
    let mut n: usize = qname.len();
    while n >= 2
        invariant
            n <= qname@.len(),
            last_colons(qname@, n as int) == name_place(qname@),
        decreases n,
    {
        if qname[n - 2] == ':' && qname[n - 1] == ':' {
            return Some(n - 2);
        }
        n = n - 1;
    }
    None
}

fn label_of(i: usize) -> (r: &'static str)
    ensures
        r@ == field_label(i as int),
{
    match i {
        0 => "qname",
        1 => "fn_kind",
        2 => "ignored",
        3 => "file",
        _ => "line",
    }
}

/// Parses one line that is not empty.
fn parse_line(line: &str) -> (r: Result<TestEntry, SidecarErrorKind>)
    ensures
        match r {
            Ok(entry) => line_fault(line@) is None && entry@ == line_entry(line@),
            Err(kind) => kind.reports(line@),
        },
{
    let fields: Vec<String> = split_text(line, '\t');
    let ghost all = texts(fields@);
    assert(all.len() == fields@.len());
    assert(forall|i: int| 0 <= i < all.len() ==> #[trigger] all[i] == fields@[i]@);
    if fields.len() < 5 {
        let label: &str = label_of(fields.len());
        return Err(SidecarErrorKind::Missing { label: label.to_owned() });
    }
    if fields.len() > 5 {
        return Err(SidecarErrorKind::TooMany);
    }
    let qname: Vec<char> = chars_of(fields[0].as_str());
    let at: usize = match find_name(&qname) {
        Some(at) => at,
        None => {
            return Err(SidecarErrorKind::NoSeparator { qname: fields[0].clone() });
        },
    };
    let kind: &str = fields[1].as_str();
    let fn_kind: FnKind = if same_text(kind, "int") {
        FnKind::Int
    } else if same_text(kind, "void") {
        FnKind::Void
    } else {
        return Err(SidecarErrorKind::FnKind { field: fields[1].clone() });
    };
    let flag: &str = fields[2].as_str();
    let ignored: bool = if same_text(flag, "0") {
        false
    } else if same_text(flag, "1") {
        true
    } else {
        return Err(SidecarErrorKind::Ignored { field: fields[2].clone() });
    };
    let number: u32 = match parse_u32(fields[4].as_str()) {
        Some(number) if number > 0 => number,
        Some(_) => {
            return Err(SidecarErrorKind::Line { field: fields[4].clone(), cause: None });
        },
        None => {
            let cause: String = u32_error_text(fields[4].as_str());
            return Err(SidecarErrorKind::Line { field: fields[4].clone(), cause: Some(cause) });
        },
    };
    let n: usize = qname.len();
    let module: String = text_of(qname.as_slice(), 0, at);
    let name: String = text_of(qname.as_slice(), at + 2, n);
    assert(module@ =~= qname@.take(at as int));
    assert(name@ =~= qname@.skip(at + 2));
    Ok(TestEntry { module, name, fn_kind, ignored, file: fields[3].clone(), line: number })
}

/// Parses the contents of a sidecar file. `path` is for the report.
pub fn parse(contents: &str, path: &str) -> (r: Result<Vec<TestEntry>, SidecarError>)
    ensures
        ({
            let lines = text_lines(contents@);
            match r {
                Ok(entries) => lines_are_sound(lines, lines.len() as int) && entry_models(entries@)
                    == listed_entries(lines, lines.len() as int),
                Err(e) => e.reports(path@, lines, e.line - 1) && lines_are_sound(
                    lines,
                    e.line - 1,
                ),
            }
        }),
{
    let lines: Vec<String> = lines_of(contents);
    let ghost all = text_lines(contents@);
    let mut out: Vec<TestEntry> = Vec::new();
    let mut i: usize = 0;
    assert(entry_models(out@) =~= seq![]);
    assert(all.len() == lines@.len());
    while i < lines.len()
        invariant
            i <= lines@.len(),
            all == text_lines(contents@),
            all == texts(lines@),
            lines_are_sound(all, i as int),
            entry_models(out@) == listed_entries(all, i as int),
        decreases lines@.len() - i,
    {
        assert(all[i as int] == lines@[i as int]@);
        let ghost before = entry_models(out@);
        if !lines[i].as_str().is_empty() {
            match parse_line(lines[i].as_str()) {
                Ok(entry) => {
                    assert(line_is_sound(all, i as int));
                    out.push(entry);
                    assert(entry_models(out@) =~= before.push(entry@));
                },
                Err(kind) => {
                    return Err(SidecarError { path: path.to_owned(), line: i + 1, kind });
                },
            }
        }
        i = i + 1;
    }
    Ok(out)
}

/// The line that lists a test.
pub open spec fn sidecar_line(t: TestModel) -> Seq<char> {
    let kind = match t.fn_kind {
        FnKind::Int => "int"@,
        FnKind::Void => "void"@,
    };
    let flag = if t.ignored {
        "1"@
    } else {
        "0"@
    };
    ((((t.module + "::"@ + t.name).push('\t') + kind).push('\t') + flag).push('\t') + t.file).push(
        '\t',
    ) + decimal(t.line)
}

/// A line that lists a test reads back as the test: names of functions hold
/// no colon, and no field holds a tab.
pub proof fn law_sidecar_line_reads_back(t: TestModel)
    requires
        !t.module.contains('\t'),
        !t.name.contains('\t'),
        !t.name.contains(':'),
        !t.file.contains('\t'),
        1 <= t.line <= u32::MAX,
    ensures
        line_fault(sidecar_line(t)) is None,
        line_entry(sidecar_line(t)) == t,
{
    reveal_strlit("::");
    reveal_strlit("int");
    reveal_strlit("void");
    reveal_strlit("0");
    reveal_strlit("1");
    let qname = t.module + "::"@ + t.name;
    let kind = match t.fn_kind {
        FnKind::Int => "int"@,
        FnKind::Void => "void"@,
    };
    let flag = if t.ignored {
        "1"@
    } else {
        "0"@
    };
    assert(!qname.contains('\t')) by {
        assert forall|i: int| 0 <= i < qname.len() implies qname[i] != '\t' by {
            if i < t.module.len() {
                assert(qname[i] == t.module[i]);
            } else if i >= t.module.len() + 2 {
                assert(qname[i] == t.name[i - t.module.len() - 2]);
            }
        }
    }
    lemma_decimal_digits(t.line);
    law_decimal_reads_back(t.line as u32);
    assert(!decimal(t.line).contains('\t')) by {
        assert forall|i: int| 0 <= i < decimal(t.line).len() implies decimal(t.line)[i] != '\t' by {
            assert(is_digit(decimal(t.line)[i]));
        }
    }
    let a = qname.push('\t') + kind;
    let b = a.push('\t') + flag;
    let c = b.push('\t') + t.file;
    lemma_pieces_single(qname, '\t');
    lemma_pieces_push(qname, '\t', kind);
    lemma_pieces_push(a, '\t', flag);
    lemma_pieces_push(b, '\t', t.file);
    lemma_pieces_push(c, '\t', decimal(t.line));
    let fields = pieces(sidecar_line(t), '\t');
    assert(fields =~= seq![qname, kind, flag, t.file, decimal(t.line)]);
    // The last `::` is the one that was put there.
    lemma_last_colons(t.module, t.name, qname.len() as int);
    let at = t.module.len() as int;
    assert(qname.take(at) =~= t.module);
    assert(qname.skip(at + 2) =~= t.name);
}

proof fn lemma_last_colons(module: Seq<char>, name: Seq<char>, n: int)
    requires
        !name.contains(':'),
        module.len() + 2 <= n <= module.len() + 2 + name.len(),
    ensures
        last_colons(module + "::"@ + name, n) == Some(module.len() as int),
    decreases n,
{
    reveal_strlit("::");
    let qname = module + "::"@ + name;
    if n > module.len() + 2 {
        assert(qname[n - 1] == name[n - 1 - module.len() - 2]);
        assert(qname[n - 1] != ':');
        lemma_last_colons(module, name, n - 1);
    }
}

/// Whether a test can stand on a line: no field holds a tab or a line feed, the
/// name of the function holds no colon, and the line number is one.
pub open spec fn is_listable(t: TestModel) -> bool {
    &&& !t.module.contains('\t') && !t.module.contains('\n')
    &&& !t.name.contains('\t') && !t.name.contains('\n') && !t.name.contains(':')
    &&& !t.file.contains('\t') && !t.file.contains('\n')
    &&& 1 <= t.line <= u32::MAX
}

/// A line of a sidecar file: it lists a test, or it is empty.
pub open spec fn file_line(line: Option<TestModel>) -> Seq<char> {
    match line {
        Some(t) => sidecar_line(t),
        None => Seq::empty(),
    }
}

/// Lines, each with its line feed.
pub open spec fn written_lines(lines: Seq<Seq<char>>) -> Seq<char>
    decreases lines.len(),
{
    if lines.len() == 0 {
        Seq::empty()
    } else {
        (written_lines(lines.drop_last()) + lines.last()).push('\n')
    }
}

/// A sidecar file with the given lines.
pub open spec fn sidecar_file(lines: Seq<Option<TestModel>>) -> Seq<char> {
    written_lines(lines.map_values(|line: Option<TestModel>| file_line(line)))
}

/// The tests that lines list, in order.
pub open spec fn tests_on(lines: Seq<Option<TestModel>>) -> Seq<TestModel>
    decreases lines.len(),
{
    if lines.len() == 0 {
        seq![]
    } else {
        match lines.last() {
            Some(t) => tests_on(lines.drop_last()).push(t),
            None => tests_on(lines.drop_last()),
        }
    }
}

proof fn lemma_pieces_of_lines(lines: Seq<Seq<char>>)
    requires
        forall|k: int| 0 <= k < lines.len() ==> !(#[trigger] lines[k]).contains('\n'),
    ensures
        pieces(written_lines(lines), '\n') == lines.push(Seq::empty()),
    decreases lines.len(),
{
    if lines.len() > 0 {
        let front = lines.drop_last();
        let last = lines.last();
        let before = written_lines(front);
        assert forall|k: int| 0 <= k < front.len() implies !(#[trigger] front[k]).contains('\n') by {
            assert(front[k] == lines[k]);
        }
        lemma_pieces_of_lines(front);
        assert(!lines[lines.len() - 1].contains('\n'));
        if front.len() == 0 {
            assert(before + last =~= last);
            lemma_pieces_single(last, '\n');
            assert(pieces(before + last, '\n') =~= lines);
        } else {
            let open = before.drop_last();
            assert(before =~= open.push('\n'));
            lemma_pieces_push(open, '\n', last);
            assert(pieces(before, '\n') == pieces(open, '\n').push(Seq::empty()));
            assert(pieces(open, '\n') =~= pieces(before, '\n').drop_last());
            assert(pieces(open, '\n') =~= front);
            assert(pieces(before + last, '\n') =~= lines);
        }
        let whole = (before + last).push('\n');
        assert(whole.drop_last() =~= before + last);
    } else {
        assert(lines.push(Seq::empty()) =~= seq![Seq::<char>::empty()]);
    }
}

proof fn lemma_line_stays_whole(t: TestModel)
    requires
        is_listable(t),
    ensures
        !sidecar_line(t).contains('\n'),
        sidecar_line(t).len() > 0,
        sidecar_line(t).last() != '\r',
{
    reveal_strlit("::");
    reveal_strlit("int");
    reveal_strlit("void");
    reveal_strlit("0");
    reveal_strlit("1");
    lemma_decimal_digits(t.line);
    let digits = decimal(t.line);
    let line = sidecar_line(t);
    assert(line.last() == digits.last());
    assert(is_digit(digits[digits.len() - 1]));
    assert forall|i: int| 0 <= i < digits.len() implies digits[i] != '\n' by {
        assert(is_digit(digits[i]));
    }
    let a = t.module.len() as int;
    let b = a + 2 + t.name.len();
    let kind = match t.fn_kind {
        FnKind::Int => "int"@,
        FnKind::Void => "void"@,
    };
    let c = b + 1 + kind.len();
    let d = c + 2;
    let e = d + 1 + t.file.len();
    assert forall|i: int| 0 <= i < line.len() implies line[i] != '\n' by {
        if i < a {
            assert(line[i] == t.module[i]);
        } else if a + 2 <= i < b {
            assert(line[i] == t.name[i - a - 2]);
        } else if b + 1 <= i < c {
            assert(line[i] == kind[i - b - 1]);
        } else if d + 1 <= i < e {
            assert(line[i] == t.file[i - d - 1]);
        } else if e + 1 <= i {
            assert(line[i] == digits[i - e - 1]);
        }
    }
}

proof fn lemma_listed_entries(lines: Seq<Option<TestModel>>, all: Seq<Seq<char>>, n: int)
    requires
        0 <= n <= lines.len(),
        all.len() == lines.len(),
        forall|k: int|
            0 <= k < lines.len() ==> ((#[trigger] lines[k]) matches Some(t) ==> is_listable(t)),
        forall|k: int| 0 <= k < lines.len() ==> #[trigger] all[k] == file_line(lines[k]),
    ensures
        lines_are_sound(all, n),
        listed_entries(all, n) == tests_on(lines.take(n)),
    decreases n,
{
    if n > 0 {
        lemma_listed_entries(lines, all, n - 1);
        assert(lines.take(n).drop_last() =~= lines.take(n - 1));
        assert(lines.take(n).last() == lines[n - 1]);
        assert(all[n - 1] == file_line(lines[n - 1]));
        if let Some(t) = lines[n - 1] {
            lemma_line_stays_whole(t);
            law_sidecar_line_reads_back(t);
        }
        assert(line_is_sound(all, n - 1));
        assert(lines_are_sound(all, n));
    } else {
        assert(lines.take(n) =~= seq![]);
    }
}

/// A sidecar file reads back as the tests that its lines list, in order,
/// whatever empty lines stand between them.
pub proof fn law_sidecar_file_reads_back(lines: Seq<Option<TestModel>>)
    requires
        forall|k: int|
            0 <= k < lines.len() ==> ((#[trigger] lines[k]) matches Some(t) ==> is_listable(t)),
    ensures
        ({
            let read = text_lines(sidecar_file(lines));
            &&& lines_are_sound(read, read.len() as int)
            &&& listed_entries(read, read.len() as int) == tests_on(lines)
        }),
{
    let all = lines.map_values(|line: Option<TestModel>| file_line(line));
    assert forall|k: int| 0 <= k < all.len() implies !(#[trigger] all[k]).contains('\n') && chomped(
        all[k],
    ) == all[k] by {
        assert(all[k] == file_line(lines[k]));
        if let Some(t) = lines[k] {
            lemma_line_stays_whole(t);
        }
    }
    lemma_pieces_of_lines(all);
    let parts = all.push(Seq::empty());
    let read = text_lines(sidecar_file(lines));
    assert(parts.drop_last() =~= all);
    assert(read =~= all);
    lemma_listed_entries(lines, all, lines.len() as int);
    assert(lines.take(lines.len() as int) =~= lines);
}

} // verus!
