//! Character-level recognizers and the failure values that the parsers pass around.
//!
//! A parser reads a sequence of characters from a position and either
//! returns the position after what it consumed together with a value, or a
//! failure at some position. Failures are recoverable errors, unrecoverable
//! failures, or requests for more input.
use vstd::prelude::*;
use crate::error::{Error, ErrorKind, IResult, Needed, NomErrorKind, ParseErr};
use vstd::string::StrSliceExecFns;

verus! {

/// Whether a failure may be recovered from.
#[derive(Debug, Clone, Copy, PartialEq, Eq)]
pub enum Mode {
    Error,
    Failure,
    Incomplete,
}

/// A failure at a position of the input.
#[derive(Debug, Clone, Copy, PartialEq, Eq)]
pub struct Fail {
    pub mode: Mode,
    pub pos: usize,
    pub kind: ErrorKind,
    /// The failure comes from the end of an interval that is missing.
    pub missing_end: bool,
}

/// The outcome of a parser in specifications. `Panic` stands for inputs on
/// which the computation is not defined.
pub ghost enum SMode {
    Error,
    Failure,
    Incomplete,
    Panic,
}

pub ghost struct SFail {
    pub mode: SMode,
    pub pos: int,
    pub kind: ErrorKind,
    pub missing_end: bool,
}

pub type SRes<T> = Result<(int, T), SFail>;

pub type PRes<T> = Result<(usize, T), Fail>;

impl Fail {
    pub open spec fn view(self) -> SFail {
        SFail {
            mode: match self.mode {
                Mode::Error => SMode::Error,
                Mode::Failure => SMode::Failure,
                Mode::Incomplete => SMode::Incomplete,
            },
            pos: self.pos as int,
            kind: self.kind,
            missing_end: self.missing_end,
        }
    }
}

/// The specification view of an executable parser result.
pub open spec fn rv<T>(r: PRes<T>) -> SRes<T> {
    match r {
        Ok((p, t)) => Ok((p as int, t)),
        Err(f) => Err(f@),
    }
}

/// A recoverable error.
pub open spec fn serr(pos: int, kind: ErrorKind) -> SFail {
    SFail { mode: SMode::Error, pos, kind, missing_end: false }
}

/// An unrecoverable failure.
pub open spec fn sfailure(pos: int, kind: ErrorKind) -> SFail {
    SFail { mode: SMode::Failure, pos, kind, missing_end: false }
}

/// Turns a recoverable error into an unrecoverable failure.
pub open spec fn scut(f: SFail) -> SFail {
    if f.mode is Error {
        SFail { mode: SMode::Failure, ..f }
    } else {
        f
    }
}

/// Positions stay within the input.
pub open spec fn bounded<T>(r: PRes<T>, i: int, n: int) -> bool {
    match r {
        Ok((j, _)) => i <= j <= n,
        Err(f) => f.pos <= n,
    }
}

/// The result is not a request for more input.
pub open spec fn complete<T>(r: PRes<T>) -> bool {
    r matches Err(f) ==> !(f.mode is Incomplete)
}

pub fn fail_error(pos: usize, kind: ErrorKind) -> (f: Fail)
    ensures
        f@ == serr(pos as int, kind),
{
    Fail { mode: Mode::Error, pos, kind, missing_end: false }
}

pub fn fail_failure(pos: usize, kind: ErrorKind) -> (f: Fail)
    ensures
        f@ == sfailure(pos as int, kind),
{
    Fail { mode: Mode::Failure, pos, kind, missing_end: false }
}

pub fn cut(f: Fail) -> (g: Fail)
    ensures
        g@ == scut(f@),
{
    match f.mode {
        Mode::Error => Fail { mode: Mode::Failure, ..f },
        _ => f,
    }
}

/// Classes of characters that the recognizers consume in runs.
#[derive(Debug, Clone, Copy, PartialEq, Eq)]
pub enum CharClass {
    /// `0` to `9`
    Digit,
    /// space and tab
    Space,
    /// space, tab, carriage return and line feed
    MultiSpace,
    /// anything but Unicode white space
    NotWhitespace,
    /// Unicode white space
    Whitespace,
    /// anything but `:` and Unicode white space
    NotColonNorWhitespace,
}

/// Unicode white space, as `char::is_whitespace` defines it.
pub open spec fn is_whitespace(c: char) -> bool {
    ||| c == ' '
    ||| ('\t' <= c && c <= '\r')
    ||| c == '\u{85}'
    ||| c == '\u{a0}'
    ||| c == '\u{1680}'
    ||| ('\u{2000}' <= c && c <= '\u{200a}')
    ||| c == '\u{2028}'
    ||| c == '\u{2029}'
    ||| c == '\u{202f}'
    ||| c == '\u{205f}'
    ||| c == '\u{3000}'
}

pub open spec fn is_digit(c: char) -> bool {
    '0' <= c && c <= '9'
}

pub open spec fn in_class(k: CharClass, c: char) -> bool {
    match k {
        CharClass::Digit => is_digit(c),
        CharClass::Space => c == ' ' || c == '\t',
        CharClass::MultiSpace => c == ' ' || c == '\t' || c == '\r' || c == '\n',
        CharClass::NotWhitespace => !is_whitespace(c),
        CharClass::Whitespace => is_whitespace(c),
        CharClass::NotColonNorWhitespace => c != ':' && !is_whitespace(c),
    }
}

pub fn whitespace(c: char) -> (b: bool)
    ensures
        b == is_whitespace(c),
{
    c == ' ' || ('\t' <= c && c <= '\r') || c == '\u{85}' || c == '\u{a0}' || c == '\u{1680}'
        || ('\u{2000}' <= c && c <= '\u{200a}') || c == '\u{2028}' || c == '\u{2029}'
        || c == '\u{202f}' || c == '\u{205f}' || c == '\u{3000}'
}

pub fn char_in_class(k: CharClass, c: char) -> (b: bool)
    ensures
        b == in_class(k, c),
{
    match k {
        CharClass::Digit => '0' <= c && c <= '9',
        CharClass::Space => c == ' ' || c == '\t',
        CharClass::MultiSpace => c == ' ' || c == '\t' || c == '\r' || c == '\n',
        CharClass::NotWhitespace => !whitespace(c),
        CharClass::Whitespace => whitespace(c),
        CharClass::NotColonNorWhitespace => c != ':' && !whitespace(c),
    }
}

/// The end of the run of characters of class `k` that starts at `i`.
pub open spec fn run_end(s: Seq<char>, i: int, k: CharClass) -> int
    decreases s.len() - i,
{
    if 0 <= i < s.len() && in_class(k, s[i]) {
        run_end(s, i + 1, k)
    } else {
        i
    }
}

pub proof fn lemma_run_end(s: Seq<char>, i: int, k: CharClass)
    requires
        0 <= i <= s.len(),
    ensures
        i <= run_end(s, i, k) <= s.len(),
        forall|j: int| i <= j < run_end(s, i, k) ==> in_class(k, #[trigger] s[j]),
        run_end(s, i, k) < s.len() ==> !in_class(k, s[run_end(s, i, k)]),
    decreases s.len() - i,
{
    if i < s.len() && in_class(k, s[i]) {
        lemma_run_end(s, i + 1, k);
    }
}

/// A run is determined by the characters it covers and the one that ends it.
pub proof fn lemma_run_end_char(s: Seq<char>, i: int, j: int, k: CharClass)
    requires
        0 <= i <= j <= s.len(),
        forall|m: int| i <= m < j ==> in_class(k, #[trigger] s[m]),
        j < s.len() ==> !in_class(k, s[j]),
    ensures
        run_end(s, i, k) == j,
    decreases j - i,
{
    if i < j {
        lemma_run_end_char(s, i + 1, j, k);
    }
}

pub fn scan_run(s: &Vec<char>, i: usize, k: CharClass) -> (j: usize)
    requires
        i <= s@.len(),
    ensures
        j as int == run_end(s@, i as int, k),
        i <= j <= s@.len(),
{
    let mut j = i;
    proof { lemma_run_end(s@, i as int, k); }
    while j < s.len() && char_in_class(k, s[j])
        invariant
            i <= j <= s@.len(),
            run_end(s@, j as int, k) == run_end(s@, i as int, k),
        decreases s@.len() - j,
    {
        j = j + 1;
    }
    j
}

/// Value of a sequence of decimal digits.
pub open spec fn digits_value(s: Seq<char>) -> nat
    decreases s.len(),
{
    if s.len() == 0 {
        0
    } else {
        digits_value(s.drop_last()) * 10 + (s.last() as nat - '0' as nat) as nat
    }
}

/// `c` is the character `expected`.
pub open spec fn sp_char(s: Seq<char>, i: int, c: char) -> SRes<char> {
    if 0 <= i < s.len() && s[i] == c {
        Ok((i + 1, c))
    } else {
        Err(serr(i, ErrorKind::Char(c)))
    }
}

/// Like `sp_char`, but asks for more input at the end of the input.
pub open spec fn sp_char_streaming(s: Seq<char>, i: int, c: char) -> SRes<char> {
    if i >= s.len() {
        Err(SFail { mode: SMode::Incomplete, pos: i, kind: ErrorKind::Char(c), missing_end: false })
    } else {
        sp_char(s, i, c)
    }
}

/// A non-empty run of digits whose value fits in 16 bits.
pub open spec fn sp_u16(s: Seq<char>, i: int) -> SRes<u16> {
    let j = run_end(s, i, CharClass::Digit);
    if j == i {
        Err(serr(i, ErrorKind::Nom(NomErrorKind::Digit)))
    } else if digits_value(s.subrange(i, j)) > 0xffff {
        Err(serr(i, ErrorKind::Nom(NomErrorKind::MapRes)))
    } else {
        Ok((j, digits_value(s.subrange(i, j)) as u16))
    }
}

/// A run of spaces and tabs, possibly empty.
pub open spec fn sp_space0(s: Seq<char>, i: int) -> int {
    run_end(s, i, CharClass::Space)
}

/// A run of spaces, tabs, carriage returns and line feeds, possibly empty.
pub open spec fn sp_multispace0(s: Seq<char>, i: int) -> int {
    run_end(s, i, CharClass::MultiSpace)
}

/// A non-empty run of spaces and tabs.
pub open spec fn sp_space1(s: Seq<char>, i: int) -> SRes<()> {
    let j = run_end(s, i, CharClass::Space);
    if j == i { Err(serr(i, ErrorKind::Nom(NomErrorKind::Space))) } else { Ok((j, ())) }
}

/// A non-empty run of characters that are not white space.
pub open spec fn sp_word(s: Seq<char>, i: int) -> SRes<()> {
    let j = run_end(s, i, CharClass::NotWhitespace);
    if j == i { Err(serr(i, ErrorKind::Nom(NomErrorKind::TakeTill1))) } else { Ok((j, ())) }
}

/// The two characters `a` and `b`.
pub open spec fn sp_tag2(s: Seq<char>, i: int, a: char, b: char) -> SRes<()> {
    if 0 <= i && i + 1 < s.len() && s[i] == a && s[i + 1] == b {
        Ok((i + 2, ()))
    } else {
        Err(serr(i, ErrorKind::Nom(NomErrorKind::Tag)))
    }
}

/// One upper-case ASCII letter.
pub open spec fn sp_upper(s: Seq<char>, i: int) -> SRes<char> {
    if 0 <= i < s.len() && 'A' <= s[i] && s[i] <= 'Z' {
        Ok((i + 1, s[i]))
    } else {
        Err(serr(i, ErrorKind::Nom(NomErrorKind::OneOf)))
    }
}

pub fn p_char(s: &Vec<char>, i: usize, c: char) -> (r: PRes<char>)
    requires
        i <= s@.len(),
    ensures
        complete(r),
        bounded(r, i as int, s@.len() as int),
        rv(r) == sp_char(s@, i as int, c),
{
    if i < s.len() && s[i] == c {
        Ok((i + 1, c))
    } else {
        Err(fail_error(i, ErrorKind::Char(c)))
    }
}

pub fn p_char_streaming(s: &Vec<char>, i: usize, c: char) -> (r: PRes<char>)
    requires
        i <= s@.len(),
    ensures
        bounded(r, i as int, s@.len() as int),
        rv(r) == sp_char_streaming(s@, i as int, c),
{
    if i >= s.len() {
        Err(Fail { mode: Mode::Incomplete, pos: i, kind: ErrorKind::Char(c), missing_end: false })
    } else {
        p_char(s, i, c)
    }
}

pub fn p_u16(s: &Vec<char>, i: usize) -> (r: PRes<u16>)
    requires
        i <= s@.len(),
    ensures
        complete(r),
        bounded(r, i as int, s@.len() as int),
        rv(r) == sp_u16(s@, i as int),
{
    let j = scan_run(s, i, CharClass::Digit);
    proof { lemma_run_end(s@, i as int, CharClass::Digit); }
    if j == i {
        return Err(fail_error(i, ErrorKind::Nom(NomErrorKind::Digit)));
    }
    let mut v: u32 = 0;
    let mut k = i;
    while k < j
        invariant
            i <= k <= j <= s@.len(),
            j == run_end(s@, i as int, CharClass::Digit),
            forall|m: int| i <= m < j ==> is_digit(#[trigger] s@[m]),
            v <= 0x10000,
            v == 0x10000 <==> digits_value(s@.subrange(i as int, k as int)) > 0xffff,
            v < 0x10000 ==> v == digits_value(s@.subrange(i as int, k as int)),
        decreases j - k,
    {
        let ghost prev = s@.subrange(i as int, k as int);
        let ghost next = s@.subrange(i as int, k + 1);
        assert(next.drop_last() =~= prev);
        assert(next.last() == s@[k as int]);
        assert(is_digit(s@[k as int]));
        let d: u32 = (s[k] as u32) - ('0' as u32);
        if v < 0x10000 {
            let w: u32 = v * 10 + d;
            if w > 0xffff {
                v = 0x10000;
            } else {
                v = w;
            }
        }
        k = k + 1;
    }
    if v > 0xffff {
        Err(fail_error(i, ErrorKind::Nom(NomErrorKind::MapRes)))
    } else {
        Ok((j, v as u16))
    }
}

pub fn p_space0(s: &Vec<char>, i: usize) -> (j: usize)
    requires
        i <= s@.len(),
    ensures
        j as int == sp_space0(s@, i as int),
        i <= j <= s@.len(),
{
    proof { lemma_run_end(s@, i as int, CharClass::Space); }
    scan_run(s, i, CharClass::Space)
}

pub fn p_multispace0(s: &Vec<char>, i: usize) -> (j: usize)
    requires
        i <= s@.len(),
    ensures
        j as int == sp_multispace0(s@, i as int),
        i <= j <= s@.len(),
{
    proof { lemma_run_end(s@, i as int, CharClass::MultiSpace); }
    scan_run(s, i, CharClass::MultiSpace)
}

pub fn p_space1(s: &Vec<char>, i: usize) -> (r: PRes<()>)
    requires
        i <= s@.len(),
    ensures
        complete(r),
        bounded(r, i as int, s@.len() as int),
        rv(r) == sp_space1(s@, i as int),
{
    let j = scan_run(s, i, CharClass::Space);
    if j == i { Err(fail_error(i, ErrorKind::Nom(NomErrorKind::Space))) } else { Ok((j, ())) }
}

pub fn p_word(s: &Vec<char>, i: usize) -> (r: PRes<()>)
    requires
        i <= s@.len(),
    ensures
        complete(r),
        bounded(r, i as int, s@.len() as int),
        rv(r) == sp_word(s@, i as int),
{
    let j = scan_run(s, i, CharClass::NotWhitespace);
    if j == i { Err(fail_error(i, ErrorKind::Nom(NomErrorKind::TakeTill1))) } else { Ok((j, ())) }
}

pub fn p_tag2(s: &Vec<char>, i: usize, a: char, b: char) -> (r: PRes<()>)
    requires
        i <= s@.len(),
    ensures
        complete(r),
        bounded(r, i as int, s@.len() as int),
        rv(r) == sp_tag2(s@, i as int, a, b),
{
    if i < s.len() && i + 1 < s.len() && s[i] == a && s[i + 1] == b {
        Ok((i + 2, ()))
    } else {
        Err(fail_error(i, ErrorKind::Nom(NomErrorKind::Tag)))
    }
}

pub fn p_upper(s: &Vec<char>, i: usize) -> (r: PRes<char>)
    requires
        i <= s@.len(),
    ensures
        complete(r),
        bounded(r, i as int, s@.len() as int),
        rv(r) == sp_upper(s@, i as int),
{
    if i < s.len() && 'A' <= s[i] && s[i] <= 'Z' {
        Ok((i + 1, s[i]))
    } else {
        Err(fail_error(i, ErrorKind::Nom(NomErrorKind::OneOf)))
    }
}

} // verus!

verus! {

/// The note attached to an interval whose end is missing.
pub open spec fn missing_end_note() -> Seq<char> {
    "missing end of interval"@
}

/// `x` reports the failure `f` of a parser run on `s`.
pub open spec fn error_reports(s: Seq<char>, x: Error, f: SFail) -> bool {
    &&& 0 <= f.pos <= s.len()
    &&& x.input@ == s.skip(f.pos)
    &&& x.kind == f.kind
    &&& if f.missing_end {
        x.context matches Some(c) && c@ == missing_end_note()
    } else {
        x.context is None
    }
}

/// `e` reports the failure `f` of a parser run on `s`.
pub open spec fn failure_reports(s: Seq<char>, e: ParseErr, f: SFail) -> bool {
    match f.mode {
        SMode::Incomplete => e == ParseErr::Incomplete(Needed::Size(1)),
        SMode::Error => e matches ParseErr::Error(x) && error_reports(s, x, f),
        SMode::Failure => e matches ParseErr::Failure(x) && error_reports(s, x, f),
        SMode::Panic => false,
    }
}

/// `r` is the outcome `sr` of a parser run on `s`: the leftover input is
/// what follows the consumed characters.
pub open spec fn reports<T>(s: Seq<char>, r: IResult<T>, sr: SRes<T>) -> bool {
    match (r, sr) {
        (Ok((rest, v)), Ok((j, w))) => rest@ == s.skip(j) && v == w,
        (Err(e), Err(f)) => failure_reports(s, e, f),
        _ => false,
    }
}

/// `r` is the outcome `sr` of a parser run on `s`, its value seen through `f`.
pub open spec fn reports_by<T, V>(s: Seq<char>, r: IResult<T>, sr: SRes<V>, f: spec_fn(T) -> V) -> bool {
    match (r, sr) {
        (Ok((rest, v)), Ok((j, w))) => rest@ == s.skip(j) && f(v) == w,
        (Err(e), Err(g)) => failure_reports(s, e, g),
        _ => false,
    }
}

/// The specification view of an executable parser result, its value seen through `f`.
pub open spec fn rv_by<T, V>(r: PRes<T>, f: spec_fn(T) -> V) -> SRes<V> {
    match r {
        Ok((p, t)) => Ok((p as int, f(t))),
        Err(e) => Err(e@),
    }
}

pub fn report_error(input: &str, n: usize, f: &Fail) -> (x: Error)
    requires
        n == input@.len(),
        f.pos <= n,
    ensures
        error_reports(input@, x, f@),
{
    let rest = input.substring_char(f.pos, n);
    assert(rest@ =~= input@.skip(f.pos as int));
    let context = if f.missing_end {
        Some("missing end of interval".to_owned())
    } else {
        None
    };
    Error { input: rest.to_owned(), kind: f.kind, context }
}

pub fn report_failure(input: &str, n: usize, f: &Fail) -> (e: ParseErr)
    requires
        n == input@.len(),
        f.pos <= n,
    ensures
        failure_reports(input@, e, f@),
{
    match f.mode {
        Mode::Incomplete => ParseErr::Incomplete(Needed::Size(1)),
        Mode::Error => ParseErr::Error(report_error(input, n, f)),
        Mode::Failure => ParseErr::Failure(report_error(input, n, f)),
    }
}

/// The outcome of a parser run on the characters of `input`.
pub fn report<'a, T>(input: &'a str, n: usize, r: PRes<T>) -> (out: IResult<'a, T>)
    requires
        n == input@.len(),
        bounded(r, 0, n as int),
    ensures
        reports(input@, out, rv(r)),
        match r {
            Ok((j, v)) => out matches Ok((rest, w)) && rest@ == input@.skip(j as int) && w == v,
            Err(f) => out matches Err(e) && failure_reports(input@, e, f@),
        },
{
    match r {
        Ok((j, v)) => {
            let rest = input.substring_char(j, n);
            assert(rest@ =~= input@.skip(j as int));
            Ok((rest, v))
        },
        Err(f) => Err(report_failure(input, n, &f)),
    }
}

} // verus!

verus! {

/// The end of `s` up to `k` without the white space before `k`.
pub open spec fn trim_end_index(s: Seq<char>, k: int) -> int
    decreases k,
{
    if 0 < k <= s.len() && is_whitespace(s[k - 1]) {
        trim_end_index(s, k - 1)
    } else {
        k
    }
}

/// `s` without leading and trailing white space.
pub open spec fn trimmed(s: Seq<char>) -> Seq<char> {
    let a = run_end(s, 0, CharClass::Whitespace);
    let b = trim_end_index(s, s.len() as int);
    if a < b { s.subrange(a, b) } else { seq![] }
}

pub proof fn lemma_trim_end_index(s: Seq<char>, k: int)
    requires
        0 <= k <= s.len(),
    ensures
        0 <= trim_end_index(s, k) <= k,
        forall|m: int| trim_end_index(s, k) <= m < k ==> is_whitespace(#[trigger] s[m]),
    decreases k,
{
    if 0 < k && is_whitespace(s[k - 1]) {
        lemma_trim_end_index(s, k - 1);
    }
}

/// Where the text of `s` without leading and trailing white space lies.
pub fn trim_range(s: &Vec<char>) -> (r: (usize, usize))
    ensures
        r.0 <= r.1 <= s@.len(),
        s@.subrange(r.0 as int, r.1 as int) == trimmed(s@),
{
    let a = scan_run(s, 0, CharClass::Whitespace);
    proof {
        lemma_run_end(s@, 0, CharClass::Whitespace);
        lemma_trim_end_index(s@, s@.len() as int);
    }
    let mut b = s.len();
    while b > a && whitespace(s[b - 1])
        invariant
            a <= b <= s@.len(),
            a == run_end(s@, 0, CharClass::Whitespace),
            trim_end_index(s@, b as int) == trim_end_index(s@, s@.len() as int),
        decreases b,
    {
        b = b - 1;
    }
    proof {
        lemma_trim_end_index(s@, b as int);
        let e = trim_end_index(s@, s@.len() as int);
        if a < e {
            assert(b > a);
            assert(!is_whitespace(s@[b - 1]));
            assert(e == b);
        } else {
            if b > a {
                assert(!is_whitespace(s@[b - 1]));
                assert(e == b);
            }
            assert(s@.subrange(a as int, b as int) =~= seq![]);
        }
    }
    (a, b)
}

} // verus!
