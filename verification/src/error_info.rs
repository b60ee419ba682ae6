//! Error messages and error positions for reporting parse errors to people.
use vstd::prelude::*;
use crate::error::{Error, ErrorKind, NomErrorKind, ParseErr};
use crate::scan::{SFail, SMode, error_reports, failure_reports};
use crate::text::{chars_of, decimal, push_char, push_decimal, push_range, slice_chars};
use vstd::string::StringExecFns;
use vstd::string::StrSliceExecFns;

verus! {

/// The name of a primitive error kind.
pub open spec fn nom_kind_name(k: NomErrorKind) -> Seq<char> {
    match k {
        NomErrorKind::Digit => "Digit"@,
        NomErrorKind::MapRes => "MapRes"@,
        NomErrorKind::Tag => "Tag"@,
        NomErrorKind::Fail => "Fail"@,
        NomErrorKind::Eof => "Eof"@,
        NomErrorKind::Space => "Space"@,
        NomErrorKind::TakeTill1 => "TakeTill1"@,
        NomErrorKind::OneOf => "OneOf"@,
        NomErrorKind::SeparatedList => "SeparatedList"@,
        NomErrorKind::Char => "Char"@,
        NomErrorKind::MultiSpace => "MultiSpace"@,
    }
}

/// The message that describes an error of kind `k`.
pub open spec fn kind_message(k: ErrorKind) -> Seq<char> {
    match k {
        ErrorKind::EmptyDescription => "empty description"@,
        ErrorKind::InvalidPeriod => "empty period"@,
        ErrorKind::InvalidDate => "invalid date"@,
        ErrorKind::InvalidTime => "invalid time"@,
        ErrorKind::Nom(NomErrorKind::Digit) => "expected a digit"@,
        ErrorKind::Nom(n) => nom_kind_name(n),
        ErrorKind::Char(c) => "expected '"@ + seq![c] + "'"@,
    }
}

fn nom_name(k: NomErrorKind) -> (r: String)
    ensures
        r@ == nom_kind_name(k),
{
    match k {
        NomErrorKind::Digit => "Digit".to_owned(),
        NomErrorKind::MapRes => "MapRes".to_owned(),
        NomErrorKind::Tag => "Tag".to_owned(),
        NomErrorKind::Fail => "Fail".to_owned(),
        NomErrorKind::Eof => "Eof".to_owned(),
        NomErrorKind::Space => "Space".to_owned(),
        NomErrorKind::TakeTill1 => "TakeTill1".to_owned(),
        NomErrorKind::OneOf => "OneOf".to_owned(),
        NomErrorKind::SeparatedList => "SeparatedList".to_owned(),
        NomErrorKind::Char => "Char".to_owned(),
        NomErrorKind::MultiSpace => "MultiSpace".to_owned(),
    }
}

impl Error {
    /// Describes the error in words.
    pub fn message(&self) -> (r: String)
        ensures
            r@ == kind_message(self.kind),
    {
        match self.kind {
            ErrorKind::EmptyDescription => "empty description".to_owned(),
            ErrorKind::InvalidPeriod => "empty period".to_owned(),
            ErrorKind::InvalidDate => "invalid date".to_owned(),
            ErrorKind::InvalidTime => "invalid time".to_owned(),
            ErrorKind::Nom(NomErrorKind::Digit) => "expected a digit".to_owned(),
            ErrorKind::Nom(n) => nom_name(n),
            ErrorKind::Char(c) => {
                let mut r = "expected '".to_owned();
                push_char(&mut r, c);
                r.append("'");
                r
            },
        }
    }
}


/// Parsed error information including line and column with preformatted error message
#[derive(Debug, Clone)]
pub struct ErrorInfo {
    /// Line of the error
    pub line: usize,

    /// Column of the error
    pub column: usize,

    /// File where the error happen (if any)
    pub file: Option<String>,

    /// Message describing the error
    pub message: String,

    /// Preformatted error message
    pub error_mesage: String,
}

/// Position of the last line feed before `k`, or -1.
pub open spec fn last_newline(s: Seq<char>, k: int) -> int
    decreases k,
{
    if k <= 0 || k > s.len() {
        -1
    } else if s[k - 1] == '\n' {
        k - 1
    } else {
        last_newline(s, k - 1)
    }
}

/// Position of the first line feed at or after `k`, or the length of `s`.
pub open spec fn next_newline(s: Seq<char>, k: int) -> int
    decreases s.len() - k,
{
    if k < 0 || k >= s.len() {
        s.len() as int
    } else if s[k] == '\n' {
        k
    } else {
        next_newline(s, k + 1)
    }
}

/// Number of line feeds before `k`.
pub open spec fn newlines_before(s: Seq<char>, k: int) -> nat
    decreases k,
{
    if k <= 0 || k > s.len() {
        0
    } else {
        newlines_before(s, k - 1) + if s[k - 1] == '\n' { 1nat } else { 0nat }
    }
}

/// Number of bytes that UTF-8 takes for `c`.
pub open spec fn utf8_width(c: char) -> nat {
    if (c as nat) < 0x80 { 1 } else if (c as nat) < 0x800 { 2 } else if (c as nat) < 0x10000 { 3 } else { 4 }
}

/// Number of bytes that UTF-8 takes for the characters from `a` up to `b`.
pub open spec fn utf8_bytes(s: Seq<char>, a: int, b: int) -> nat
    decreases b - a,
{
    if b <= a || a < 0 || b > s.len() {
        0
    } else {
        utf8_bytes(s, a, b - 1) + utf8_width(s[b - 1])
    }
}

/// Number of bytes that UTF-8 takes for all of `s`: the length in bytes of
/// a `str` whose characters are `s`.
pub open spec fn byte_len(s: Seq<char>) -> nat {
    utf8_bytes(s, 0, s.len() as int)
}

/// The bytes of a range split at any point between its ends.
proof fn lemma_utf8_bytes_split(s: Seq<char>, a: int, m: int, b: int)
    requires
        0 <= a <= m <= b <= s.len(),
    ensures
        utf8_bytes(s, a, b) == utf8_bytes(s, a, m) + utf8_bytes(s, m, b),
    decreases b - m,
{
    if m < b {
        lemma_utf8_bytes_split(s, a, m, b - 1);
    }
}

/// A range takes at least one byte per character and no more bytes than
/// the whole of `s`.
proof fn lemma_utf8_bytes_within(s: Seq<char>, a: int, b: int)
    requires
        0 <= a <= b <= s.len(),
    ensures
        b - a <= utf8_bytes(s, a, b) <= byte_len(s),
    decreases b - a,
{
    if a < b {
        lemma_utf8_bytes_within(s, a, b - 1);
    }
    lemma_utf8_bytes_split(s, 0, a, s.len() as int);
    lemma_utf8_bytes_split(s, a, b, s.len() as int);
}

pub open spec fn spaces(n: nat) -> Seq<char> {
    Seq::new(n, |_i: int| ' ')
}

/// `x` followed by spaces up to `width` characters.
pub open spec fn pad_right(x: Seq<char>, width: nat) -> Seq<char> {
    if x.len() < width { x + spaces((width - x.len()) as nat) } else { x }
}

/// The file name and a colon, or nothing.
pub open spec fn file_prefix(file: Option<Seq<char>>) -> Seq<char> {
    match file {
        Some(f) => f + seq![':'],
        None => seq![],
    }
}

/// Where the error `e` lies in `s`: the characters of `s` before the input
/// that the error left over.
pub open spec fn error_pos(s: Seq<char>, e: Error) -> int {
    s.len() - e.input@.len()
}

/// The error was reported on the input `s`: what it left over ends `s`.
pub open spec fn error_in(s: Seq<char>, e: Error) -> bool {
    e.input@.len() <= s.len() && s.skip(s.len() - e.input@.len()) == e.input@
}

/// The start of the line of position `pos`.
pub open spec fn line_start(s: Seq<char>, pos: int) -> int {
    last_newline(s, pos) + 1
}

/// The report of error `e` in `s`: the line (from 1) and the column (the
/// bytes before the error on its line, from 1), and a message that shows the
/// line with a caret under the error.
pub open spec fn report_text(s: Seq<char>, e: Error, file: Option<Seq<char>>) -> Seq<char> {
    let pos = error_pos(s, e);
    let lb = line_start(s, pos);
    let line = newlines_before(s, pos) + 1;
    let col = utf8_bytes(s, lb, pos);
    report_layout(kind_message(e.kind), file, line, col, s.subrange(lb, next_newline(s, pos)))
}

/// The layout of an error report: a header with the message and position,
/// then the line of text framed by a gutter, and a caret under the column.
pub open spec fn report_layout(msg: Seq<char>, file: Option<Seq<char>>, line: nat, col: nat, text: Seq<char>) -> Seq<char> {
    report_header(msg, file, line, col) + "    |\n"@ + seq![' '] + pad_right(decimal(line), 3) + "| "@ + text
        + seq!['\n'] + "    | "@ + spaces(col) + seq!['^']
}

pub open spec fn report_header(msg: Seq<char>, file: Option<Seq<char>>, line: nat, col: nat) -> Seq<char> {
    "error "@ + msg + " at "@ + file_prefix(file) + decimal(line) + seq![':'] + decimal(col) + seq!['\n']
}

pub open spec fn opt_str_view(o: Option<String>) -> Option<Seq<char>> {
    match o {
        Some(x) => Some(x@),
        None => None,
    }
}

pub open spec fn opt_str_ref_view(o: Option<&str>) -> Option<Seq<char>> {
    match o {
        Some(x) => Some(x@),
        None => None,
    }
}

fn push_spaces(out: &mut String, n: usize)
    ensures
        final(out)@ == old(out)@ + spaces(n as nat),
{
    let mut k: usize = 0;
    while k < n
        invariant
            k <= n,
            out@ == old(out)@ + spaces(k as nat),
        decreases n - k,
    {
        push_char(out, ' ');
        assert(spaces((k + 1) as nat) =~= spaces(k as nat).push(' '));
        k = k + 1;
    }
}

fn char_width(c: char) -> (w: usize)
    ensures
        w == utf8_width(c),
{
    let v = c as u32;
    if v < 0x80 { 1 } else if v < 0x800 { 2 } else if v < 0x10000 { 3 } else { 4 }
}

/// Line facts about the position `pos` of `s`.
struct LineFacts {
    line_start: usize,
    line_end: usize,
    newlines: usize,
    bytes: usize,
}

fn line_facts(s: &Vec<char>, pos: usize) -> (r: LineFacts)
    requires
        pos <= s@.len(),
        byte_len(s@) <= isize::MAX,
    ensures
        r.line_start == line_start(s@, pos as int),
        r.line_end == next_newline(s@, pos as int),
        r.newlines == newlines_before(s@, pos as int),
        r.line_start <= pos <= r.line_end <= s@.len(),
        r.bytes == utf8_bytes(s@, line_start(s@, pos as int), pos as int),
        r.newlines <= pos,
        r.newlines <= isize::MAX,
        r.bytes <= isize::MAX,
{
    let mut k: usize = 0;
    let mut count: usize = 0;
    let mut last: Option<usize> = None;
    while k < pos
        invariant
            k <= pos <= s@.len(),
            count == newlines_before(s@, k as int),
            count <= k,
            last == (if last_newline(s@, k as int) >= 0 { Some(last_newline(s@, k as int) as usize) } else { None::<usize> }),
            -1 <= last_newline(s@, k as int) < k,
        decreases pos - k,
    {
        if s[k] == '\n' {
            count = count + 1;
            last = Some(k);
        }
        k = k + 1;
    }
    let lb: usize = match last {
        Some(x) => x + 1,
        None => 0,
    };
    let mut end = pos;
    while end < s.len() && s[end] != '\n'
        invariant
            pos <= end <= s@.len(),
            next_newline(s@, end as int) == next_newline(s@, pos as int),
        decreases s@.len() - end,
    {
        end = end + 1;
    }
    let mut bytes: usize = 0;
    let mut m = lb;
    while m < pos
        invariant
            lb <= m <= pos <= s@.len(),
            byte_len(s@) <= isize::MAX,
            bytes == utf8_bytes(s@, lb as int, m as int),
        decreases pos - m,
    {
        proof { lemma_utf8_bytes_within(s@, lb as int, m + 1); }
        bytes = bytes + char_width(s[m]);
        m = m + 1;
    }
    proof {
        lemma_utf8_bytes_within(s@, lb as int, pos as int);
        lemma_utf8_bytes_within(s@, 0, s@.len() as int);
    }
    LineFacts { line_start: lb, line_end: end, newlines: count, bytes }
}


fn push_header(out: &mut String, msg: &String, file: Option<&str>, line: usize, col: usize)
    ensures
        final(out)@ == old(out)@ + report_header(msg@, opt_str_ref_view(file), line as nat, col as nat),
{
    let ghost start = out@;
    out.append("error ");
    out.append(msg.as_str());
    out.append(" at ");
    let ghost a = out@;
    if let Some(name) = file {
        out.append(name);
        push_char(out, ':');
    }
    assert(out@ =~= a + file_prefix(opt_str_ref_view(file)));
    let ghost b = out@;
    push_decimal(out, line as u64);
    push_char(out, ':');
    push_decimal(out, col as u64);
    push_char(out, '\n');
    assert(out@ =~= start + report_header(msg@, opt_str_ref_view(file), line as nat, col as nat));
}

fn format_report(msg: &String, file: Option<&str>, line: usize, col: usize, s: &Vec<char>, lb: usize, le: usize) -> (r: String)
    requires
        lb <= le <= s@.len(),
    ensures
        r@ == report_layout(msg@, opt_str_ref_view(file), line as nat, col as nat, s@.subrange(lb as int, le as int)),
{
    let mut result = String::new();
    push_header(&mut result, msg, file, line, col);
    let ghost h = result@;
    result.append("    |\n");
    push_char(&mut result, ' ');
    let ghost g = result@;
    let mut line_text = String::new();
    push_decimal(&mut line_text, line as u64);
    let lw = line_text.as_str().unicode_len();
    result.append(line_text.as_str());
    if lw < 3 {
        push_spaces(&mut result, 3 - lw);
    }
    assert(result@ =~= g + pad_right(decimal(line as nat), 3));
    let ghost p = result@;
    result.append("| ");
    push_range(&mut result, s, lb, le);
    push_char(&mut result, '\n');
    result.append("    | ");
    push_spaces(&mut result, col);
    push_char(&mut result, '^');
    assert(result@ =~= report_layout(msg@, opt_str_ref_view(file), line as nat, col as nat, s@.subrange(lb as int, le as int)));
    result
}

impl ErrorInfo {
    /// Converts error into nicer type which has position and nice error message generation
    pub fn from_error(input: &str, e: &Error, file: Option<&str>) -> (r: Self)
        requires
            error_in(input@, *e),
            byte_len(input@) <= isize::MAX,
        ensures
            r.line == newlines_before(input@, error_pos(input@, *e)) + 1,
            r.column == utf8_bytes(input@, line_start(input@, error_pos(input@, *e)), error_pos(input@, *e)) + 1,
            opt_str_view(r.file) == opt_str_ref_view(file),
            r.message@ == kind_message(e.kind),
            r.error_mesage@ == report_text(input@, *e, opt_str_ref_view(file)),
    {
        let s = chars_of(input);
        let rest = chars_of(e.input.as_str());
        let pos = s.len() - rest.len();
        let f = line_facts(&s, pos);
        let line = f.newlines + 1;
        let column = f.bytes;

        // pre-format the string
        let message = e.message();
        let result = format_report(&message, file, line, column, &s, f.line_start, f.line_end);
        let file_name = match file {
            Some(x) => Some(x.to_owned()),
            None => None,
        };
        ErrorInfo { line, column: column + 1, file: file_name, message, error_mesage: result }
    }

    /// The preformatted error message and a line feed.
    pub fn to_string(&self) -> (r: String)
        ensures
            r@ == self.error_mesage@ + seq!['\n'],
    {
        let mut r = self.error_mesage.clone();
        push_char(&mut r, '\n');
        r
    }
}

fn same_file(a: &Option<String>, b: &Option<String>) -> (r: bool)
    ensures
        r == (opt_str_view(*a) == opt_str_view(*b)),
{
    match (a, b) {
        (Some(x), Some(y)) => *x == *y,
        (None, None) => true,
        _ => false,
    }
}

impl PartialEq for ErrorInfo {
    fn eq(&self, other: &Self) -> (r: bool) {
        // NOTE intentionally not checking the preformatted message
        self.line == other.line && self.column == other.column && same_file(&self.file, &other.file)
            && self.message == other.message
    }
}

impl vstd::std_specs::cmp::PartialEqSpecImpl for ErrorInfo {
    open spec fn obeys_eq_spec() -> bool {
        true
    }

    open spec fn eq_spec(&self, other: &Self) -> bool {
        &&& self.line == other.line
        &&& self.column == other.column
        &&& opt_str_view(self.file) == opt_str_view(other.file)
        &&& self.message@ == other.message@
    }
}

/// The text that `convert_error` makes of error `e` in `s`: the line and
/// column (both from 1, as in `ErrorInfo`), the line of the error, and a
/// caret under the error.
pub open spec fn convert_text(s: Seq<char>, e: Error, file: Option<Seq<char>>) -> Seq<char> {
    let pos = error_pos(s, e);
    let lb = line_start(s, pos);
    let col = utf8_bytes(s, lb, pos);
    "error "@ + kind_message(e.kind) + " at "@ + file_prefix(file) + decimal(newlines_before(s, pos) + 1)
        + seq![':'] + decimal(col + 1) + seq!['\n'] + s.subrange(lb, next_newline(s, pos)) + seq!['\n']
        + spaces(col) + seq!['^']
}

/// Converts `Error` to string error message. The column is counted in bytes
/// from the first character of the error's line, as `ErrorInfo::from_error`
/// counts it, and the line is shown from that character on, without the line
/// feed before it.
pub fn convert_error(input: &str, e: &Error, file: Option<&str>) -> (r: String)
    requires
        error_in(input@, *e),
        byte_len(input@) <= isize::MAX,
    ensures
        r@ == convert_text(input@, *e, opt_str_ref_view(file)),
{
    let s = chars_of(input);
    let rest = chars_of(e.input.as_str());
    let pos = s.len() - rest.len();
    let f = line_facts(&s, pos);
    let column = f.bytes;
    let mut result = "error ".to_owned();
    let message = e.message();
    result.append(message.as_str());
    result.append(" at ");
    if let Some(name) = file {
        result.append(name);
        push_char(&mut result, ':');
    }
    push_decimal(&mut result, (f.newlines + 1) as u64);
    push_char(&mut result, ':');
    push_decimal(&mut result, (column + 1) as u64);
    push_char(&mut result, '\n');
    push_range(&mut result, &s, f.line_start, f.line_end);
    push_char(&mut result, '\n');
    push_spaces(&mut result, column);
    push_char(&mut result, '^');
    proof {
        assert(result@ =~= convert_text(input@, *e, opt_str_ref_view(file)));
    }
    result
}


/// Every error that a parser reports on an input lies in that input: what
/// it left over ends the input, so that it can be placed with
/// `ErrorInfo::from_error` and `convert_error`.
pub proof fn lemma_reported_error_in_input(s: Seq<char>, e: ParseErr, f: SFail)
    requires
        failure_reports(s, e, f),
    ensures
        e matches ParseErr::Error(x) ==> error_in(s, x),
        e matches ParseErr::Failure(x) ==> error_in(s, x),
{
    match e {
        ParseErr::Error(x) => {
            assert(s.skip(s.len() - x.input@.len()) =~= x.input@);
        },
        ParseErr::Failure(x) => {
            assert(s.skip(s.len() - x.input@.len()) =~= x.input@);
        },
        _ => {},
    }
}

} // verus!
