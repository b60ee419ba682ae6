//! Task files in the todo.txt style: completion mark, priority, dates and a description.
use vstd::prelude::*;
use crate::dates::Date;
use crate::entry::{TodoEntry, TodoEntryView, MetadataView, metadata_opt_view, todo_text, description_metadata};
use crate::lines::{lemma_suffix_line, lemma_description_line, lemma_date_line};
use crate::error::{ErrorKind, IResult, NomErrorKind};
use crate::iso8601::{sp_date, p_date};
use crate::parser::{sp_description, p_description, sp_words_from};
use crate::scan::{SRes, PRes, Mode, rv_by, serr, bounded, sp_char_streaming, sp_upper, sp_space0, sp_multispace0,
    p_char_streaming, p_upper, p_space0, p_multispace0, fail_error, reports_by, report, trimmed, trim_range};
use crate::text::{chars_of, string_of_range, slice_chars, decimal, padded, lemma_decimal};
use crate::dates::date_text;
use crate::scan::{SFail, CharClass, in_class, is_digit, digits_value, sp_u16, lemma_run_end_char, lemma_run_end,
    run_end, is_whitespace};
use vstd::string::StrSliceExecFns;

verus! {

/// An optional `x` and the spaces after it. Asks for more input at the end of the input.
pub open spec fn sp_done_mark(s: Seq<char>, i: int) -> SRes<bool> {
    match sp_char_streaming(s, i, 'x') {
        Err(e) => if e.mode is Error { Ok((i, false)) } else { Err(e) },
        Ok((j, _)) => Ok((sp_space0(s, j), true)),
    }
}

/// An optional `(A)` to `(Z)` and the white space after it. Asks for more
/// input when the input ends before a parenthesis.
pub open spec fn sp_priority(s: Seq<char>, i: int) -> SRes<Option<char>> {
    match sp_char_streaming(s, i, '(') {
        Err(e) => if e.mode is Error { Ok((i, None)) } else { Err(e) },
        Ok((j, _)) => match sp_upper(s, j) {
            Err(_) => Ok((i, None)),
            Ok((k, c)) => match sp_char_streaming(s, k, ')') {
                Err(e) => if e.mode is Error { Ok((i, None)) } else { Err(e) },
                Ok((m, _)) => Ok((sp_multispace0(s, m), Some(c))),
            },
        },
    }
}

/// An optional date and the spaces after it.
pub open spec fn sp_opt_date(s: Seq<char>, i: int) -> SRes<Option<Date>> {
    match sp_date(s, i) {
        Err(e) => if e.mode is Error { Ok((i, None)) } else { Err(e) },
        Ok((j, d)) => Ok((sp_space0(s, j), Some(d))),
    }
}

/// Where the optional dates before a description go: with two dates the first
/// is the completion date and the second the creation date; a lone date is
/// the creation date, since a task has no completion date without a creation date.
pub open spec fn task_dates(d1: Option<Date>, d2: Option<Date>) -> (Option<Date>, Option<Date>) {
    if d2 is Some { (d1, d2) } else { (None, d1) }
}

/// A task: completion mark, priority, up to two dates (see `task_dates`) and description.
pub open spec fn sp_todo_entry(s: Seq<char>, i: int) -> SRes<TodoEntryView> {
    match sp_done_mark(s, i) {
        Err(e) => Err(e),
        Ok((i1, done)) => match sp_priority(s, i1) {
            Err(e) => Err(e),
            Ok((i2, pri)) => match sp_opt_date(s, i2) {
                Err(e) => Err(e),
                Ok((i3, d1)) => match sp_opt_date(s, i3) {
                    Err(e) => Err(e),
                    Ok((i4, d2)) => match sp_description(s, i4) {
                        Err(e) => Err(e),
                        Ok((i5, meta)) => Ok((i5, TodoEntryView {
                            completed: done,
                            priority: pri,
                            completion_date: task_dates(d1, d2).0,
                            creation_date: task_dates(d1, d2).1,
                            description: s.subrange(i4, i5),
                            metadata: meta,
                        })),
                    },
                },
            },
        },
    }
}

pub open spec fn todo_entry_view(e: TodoEntry) -> TodoEntryView {
    e@
}

fn p_done_mark(s: &Vec<char>, i: usize) -> (r: PRes<bool>)
    requires
        i <= s@.len(),
    ensures
        rv_by(r, |b: bool| b) == sp_done_mark(s@, i as int),
        bounded(r, i as int, s@.len() as int),
{
    match p_char_streaming(s, i, 'x') {
        Err(e) => match e.mode {
            Mode::Error => Ok((i, false)),
            _ => Err(e),
        },
        Ok((j, _)) => Ok((p_space0(s, j), true)),
    }
}

fn p_priority(s: &Vec<char>, i: usize) -> (r: PRes<Option<char>>)
    requires
        i <= s@.len(),
    ensures
        rv_by(r, |c: Option<char>| c) == sp_priority(s@, i as int),
        bounded(r, i as int, s@.len() as int),
{
    match p_char_streaming(s, i, '(') {
        Err(e) => match e.mode {
            Mode::Error => Ok((i, None)),
            _ => Err(e),
        },
        Ok((j, _)) => match p_upper(s, j) {
            Err(_) => Ok((i, None)),
            Ok((k, c)) => match p_char_streaming(s, k, ')') {
                Err(e) => match e.mode {
                    Mode::Error => Ok((i, None)),
                    _ => Err(e),
                },
                Ok((m, _)) => Ok((p_multispace0(s, m), Some(c))),
            },
        },
    }
}

fn p_opt_date(s: &Vec<char>, i: usize) -> (r: PRes<Option<Date>>)
    requires
        i <= s@.len(),
    ensures
        rv_by(r, |d: Option<Date>| d) == sp_opt_date(s@, i as int),
        bounded(r, i as int, s@.len() as int),
{
    match p_date(s, i) {
        Err(e) => match e.mode {
            Mode::Error => Ok((i, None)),
            _ => Err(e),
        },
        Ok((j, d)) => Ok((p_space0(s, j), Some(d))),
    }
}

pub fn p_todo_entry(s: &Vec<char>, i: usize) -> (r: PRes<TodoEntry>)
    requires
        i <= s@.len(),
    ensures
        rv_by(r, |e: TodoEntry| todo_entry_view(e)) == sp_todo_entry(s@, i as int),
        bounded(r, i as int, s@.len() as int),
{
    let (i1, completed) = match p_done_mark(s, i) {
        Ok(x) => x,
        Err(e) => return Err(e),
    };
    let (i2, priority) = match p_priority(s, i1) {
        Ok(x) => x,
        Err(e) => return Err(e),
    };
    let (i3, d1) = match p_opt_date(s, i2) {
        Ok(x) => x,
        Err(e) => return Err(e),
    };
    let (i4, d2) = match p_opt_date(s, i3) {
        Ok(x) => x,
        Err(e) => return Err(e),
    };
    let (completion_date, creation_date) = match d2 {
        Some(c) => (d1, Some(c)),
        None => (None, d1),
    };
    let (i5, metadata) = match p_description(s, i4) {
        Ok(x) => x,
        Err(e) => return Err(e),
    };
    let description = string_of_range(s, i4, i5);
    Ok((i5, TodoEntry { completed, priority, completion_date, creation_date, description, metadata }))
}

/// Parse a task entry.
pub fn parse_todo_entry(input: &str) -> (r: IResult<'_, TodoEntry>)
    ensures
        reports_by(input@, r, sp_todo_entry(input@, 0), |e: TodoEntry| todo_entry_view(e)),
{
    let s = chars_of(input);
    let n = s.len();
    let res = p_todo_entry(&s, 0);
    report(input, n, res)
}

/// Tasks after the first, each after a run of white space that may be
/// empty; stops before a separator that is not followed by a task. A task
/// must consume input.
pub open spec fn sp_todo_entries_from(s: Seq<char>, p: int) -> SRes<Seq<TodoEntryView>>
    decreases s.len() - p,
{
    if 0 <= p <= s.len() {
        let k = sp_multispace0(s, p);
        match sp_todo_entry(s, k) {
            Err(e) => if e.mode is Error { Ok((p, seq![])) } else { Err(e) },
            // a task never ends past the end of the input
            Ok((j, x)) => if j <= p || j > s.len() {
                Err(serr(p, ErrorKind::Nom(NomErrorKind::SeparatedList)))
            } else {
                match sp_todo_entries_from(s, j) {
                    Err(e) => Err(e),
                    Ok((e, rest)) => Ok((e, seq![x] + rest)),
                }
            },
        }
    } else {
        Ok((p, seq![]))
    }
}

/// Tasks separated by white space; none when the first does not parse.
pub open spec fn sp_todo_entries(s: Seq<char>) -> SRes<Seq<TodoEntryView>> {
    match sp_todo_entry(s, 0) {
        Err(e) => if e.mode is Error { Ok((0, seq![])) } else { Err(e) },
        Ok((j, x)) => match sp_todo_entries_from(s, j) {
            Err(e) => Err(e),
            Ok((e, rest)) => Ok((e, seq![x] + rest)),
        },
    }
}

/// The whole of a task file, already trimmed, as tasks.
pub open spec fn sp_todo_file(t: Seq<char>) -> SRes<Seq<TodoEntryView>> {
    match sp_todo_entries(t) {
        Err(e) => Err(e),
        Ok((j, v)) => if j == t.len() { Ok((j, v)) } else { Err(serr(j, ErrorKind::Nom(NomErrorKind::Eof))) },
    }
}

pub open spec fn todo_entries_view(v: Vec<TodoEntry>) -> Seq<TodoEntryView> {
    v@.map_values(|e: TodoEntry| e@)
}

pub fn p_todo_entries(s: &Vec<char>) -> (r: PRes<Vec<TodoEntry>>)
    ensures
        rv_by(r, |v: Vec<TodoEntry>| todo_entries_view(v)) == sp_todo_entries(s@),
        bounded(r, 0, s@.len() as int),
{
    let mut out: Vec<TodoEntry> = Vec::new();
    let (j0, x0) = match p_todo_entry(s, 0) {
        Ok(x) => x,
        Err(e) => match e.mode {
            Mode::Error => {
                assert(todo_entries_view(out) =~= seq![]);
                return Ok((0, out));
            },
            _ => return Err(e),
        },
    };
    out.push(x0);
    assert(todo_entries_view(out) =~= seq![x0@]);
    let mut p = j0;
    loop
        invariant
            0 <= p <= s@.len(),
            sp_todo_entries(s@) == (match sp_todo_entries_from(s@, p as int) {
                Err(e) => Err(e),
                Ok((e, rest)) => Ok((e, todo_entries_view(out) + rest)),
            }),
        decreases s@.len() - p,
    {
        let k = p_multispace0(s, p);
        match p_todo_entry(s, k) {
            Err(e) => match e.mode {
                Mode::Error => {
                    assert(todo_entries_view(out) + seq![] =~= todo_entries_view(out));
                    return Ok((p, out));
                },
                _ => return Err(e),
            },
            Ok((j, x)) => {
                if j == p {
                    return Err(fail_error(p, ErrorKind::Nom(NomErrorKind::SeparatedList)));
                }
                let ghost before = todo_entries_view(out);
                out.push(x);
                proof {
                    assert(todo_entries_view(out) =~= before.push(x@));
                    assert forall|rest: Seq<TodoEntryView>| #[trigger] (before + (seq![x@] + rest)) == todo_entries_view(out) + rest by {
                        assert(before + (seq![x@] + rest) =~= todo_entries_view(out) + rest);
                    }
                }
                p = j;
            },
        }
    }
}

pub fn p_todo_file(t: &Vec<char>) -> (r: PRes<Vec<TodoEntry>>)
    ensures
        rv_by(r, |v: Vec<TodoEntry>| todo_entries_view(v)) == sp_todo_file(t@),
        bounded(r, 0, t@.len() as int),
{
    match p_todo_entries(t) {
        Err(e) => Err(e),
        Ok((j, v)) => if j == t.len() {
            Ok((j, v))
        } else {
            Err(fail_error(j, ErrorKind::Nom(NomErrorKind::Eof)))
        },
    }
}

/// Parse file of todo entries: the input without leading and trailing white
/// space must consist of tasks separated by white space.
pub fn parse_todo_file(input: &str) -> (r: IResult<'_, Vec<TodoEntry>>)
    ensures
        reports_by(trimmed(input@), r, sp_todo_file(trimmed(input@)), |v: Vec<TodoEntry>| todo_entries_view(v)),
{
    let s = chars_of(input);
    let (a, b) = trim_range(&s);
    let t = slice_chars(&s, a, b);
    let text = input.substring_char(a, b);
    let res = p_todo_file(&t);
    report(text, b - a, res)
}


/// The priority of a parsed task is an upper-case ASCII letter.
pub proof fn lemma_todo_priority_letter(s: Seq<char>, i: int)
    ensures
        sp_todo_entry(s, i) matches Ok((_, e)) ==> (e.priority matches Some(c) ==> 'A' <= c && c <= 'Z'),
{
}

/// A parsed task has a creation date whenever it has a completion date.
pub proof fn lemma_todo_completion_needs_creation(s: Seq<char>, i: int)
    ensures
        sp_todo_entry(s, i) matches Ok((_, e)) ==> (e.completion_date is Some ==> e.creation_date is Some),
{
}

} // verus!

verus! {

/// Ten to the power `w`.
pub open spec fn pow10(w: nat) -> nat
    decreases w,
{
    if w == 0 { 1 } else { 10 * pow10((w - 1) as nat) }
}

proof fn lemma_decimal_len(n: nat, w: nat)
    requires
        w >= 1,
        n < pow10(w),
    ensures
        decimal(n).len() <= w,
    decreases w,
{
    if n >= 10 {
        assert(w >= 2) by {
            if w == 1 {
                assert(pow10(1) == 10 * pow10(0));
            }
        }
        let p = pow10((w - 1) as nat);
        assert(pow10(w) == 10 * p);
        assert(n / 10 < p) by (nonlinear_arith)
            requires n < 10 * p;
        lemma_decimal_len(n / 10, (w - 1) as nat);
    }
}

proof fn lemma_zeros_value(z: nat)
    ensures
        digits_value(Seq::new(z, |_i: int| '0')) == 0,
    decreases z,
{
    if z > 0 {
        let s = Seq::new(z, |_i: int| '0');
        assert(s.drop_last() =~= Seq::new((z - 1) as nat, |_i: int| '0'));
        lemma_zeros_value((z - 1) as nat);
    }
}

proof fn lemma_zeros_prefix_value(z: nat, d: Seq<char>)
    ensures
        digits_value(Seq::new(z, |_i: int| '0') + d) == digits_value(d),
    decreases d.len(),
{
    let zs = Seq::new(z, |_i: int| '0');
    if d.len() == 0 {
        assert(zs + d =~= zs);
        lemma_zeros_value(z);
    } else {
        assert((zs + d).drop_last() =~= zs + d.drop_last());
        assert((zs + d).last() == d.last());
        lemma_zeros_prefix_value(z, d.drop_last());
    }
}

/// `n` written with zeros in front up to `w` digits reads back as `n`.
proof fn lemma_read_padded(s: Seq<char>, p: int, n: nat, w: nat)
    requires
        w >= 1,
        n < pow10(w),
        n <= 0xffff,
        0 <= p,
        p + w <= s.len(),
        s.subrange(p, p + w) == padded(n, w),
        p + w == s.len() || !is_digit(s[p + w]),
    ensures
        sp_u16(s, p) == Ok::<(int, u16), SFail>((p + w, n as u16)),
{
    lemma_decimal_len(n, w);
    lemma_decimal(n);
    let d = decimal(n);
    let z = (w - d.len()) as nat;
    let zs = Seq::new(z, |_i: int| '0');
    assert(padded(n, w) =~= zs + d);
    assert forall|m: int| p <= m < p + w implies in_class(CharClass::Digit, #[trigger] s[m]) by {
        assert(s[m] == s.subrange(p, p + w)[m - p]);
        if m - p >= z {
            assert((zs + d)[m - p] == d[m - p - z]);
        }
    }
    lemma_run_end_char(s, p, p + w, CharClass::Digit);
    lemma_zeros_prefix_value(z, d);
}

/// A date of the years 0 to 9999 written as text reads back as itself.
proof fn lemma_read_date(s: Seq<char>, p: int, d: Date)
    requires
        d.wf(),
        0 <= d.year <= 9999,
        0 <= p,
        p + 10 <= s.len(),
        s.subrange(p, p + 10) == date_text(d),
        p + 10 == s.len() || !is_digit(s[p + 10]),
    ensures
        sp_date(s, p) == Ok::<(int, Date), SFail>((p + 10, d)),
{
    reveal_with_fuel(pow10, 5);
    let y = padded(d.year as nat, 4);
    let m = padded(d.month as nat, 2);
    let dd = padded(d.day as nat, 2);
    lemma_decimal_len(d.year as nat, 4);
    lemma_decimal_len(d.month as nat, 2);
    lemma_decimal_len(d.day as nat, 2);
    assert(y.len() == 4 && m.len() == 2 && dd.len() == 2);
    let t = date_text(d);
    assert(t =~= y + seq!['-'] + m + seq!['-'] + dd);
    assert(s.subrange(p, p + 4) =~= y) by {
        assert forall|k: int| 0 <= k < 4 implies s.subrange(p, p + 4)[k] == y[k] by {
            assert(s.subrange(p, p + 10)[k] == t[k]);
        }
    }
    assert(s[p + 4] == '-') by { assert(s.subrange(p, p + 10)[4] == t[4]); }
    assert(s.subrange(p + 5, p + 7) =~= m) by {
        assert forall|k: int| 0 <= k < 2 implies s.subrange(p + 5, p + 7)[k] == m[k] by {
            assert(s.subrange(p, p + 10)[k + 5] == t[k + 5]);
        }
    }
    assert(s[p + 7] == '-') by { assert(s.subrange(p, p + 10)[7] == t[7]); }
    assert(s.subrange(p + 8, p + 10) =~= dd) by {
        assert forall|k: int| 0 <= k < 2 implies s.subrange(p + 8, p + 10)[k] == dd[k] by {
            assert(s.subrange(p, p + 10)[k + 8] == t[k + 8]);
        }
    }
    lemma_read_padded(s, p, d.year as nat, 4);
    lemma_read_padded(s, p + 5, d.month as nat, 2);
    lemma_read_padded(s, p + 8, d.day as nat, 2);
}

/// Words that are not white space, separated by spaces and tabs, with no
/// white space before the first or after the last.
pub open spec fn plain_words(d: Seq<char>) -> bool {
    &&& d.len() > 0
    &&& !is_whitespace(d[0])
    &&& !is_whitespace(d.last())
    &&& forall|k: int| 0 <= k < d.len() && is_whitespace(#[trigger] d[k]) ==> d[k] == ' ' || d[k] == '\t'
}

proof fn lemma_words_from_whole(d: Seq<char>, p: int)
    requires
        plain_words(d),
        0 <= p <= d.len(),
        p == d.len() || is_whitespace(d[p]),
    ensures
        sp_words_from(d, p).0 == d.len(),
    decreases d.len() - p,
{
    lemma_run_end(d, p, CharClass::Space);
    let k = sp_space0(d, p);
    if p < d.len() {
        assert(k < d.len()) by {
            if k == d.len() {
                assert(in_class(CharClass::Space, d[d.len() - 1]));
            }
        }
        assert(!is_whitespace(d[k]));
        lemma_run_end(d, k, CharClass::NotWhitespace);
        let j = run_end(d, k, CharClass::NotWhitespace);
        assert(j > k);
        lemma_words_from_whole(d, j);
    }
}

/// A description of plain words is read whole.
proof fn lemma_description_whole(d: Seq<char>)
    requires
        plain_words(d),
    ensures
        sp_description(d, 0) matches Ok((e, _)) && e == d.len(),
{
    reveal(sp_description);
    lemma_run_end(d, 0, CharClass::NotWhitespace);
    let j = run_end(d, 0, CharClass::NotWhitespace);
    lemma_words_from_whole(d, j);
}

/// The text of the dates of a task, each followed by a space.
pub open spec fn dates_text(completion: Option<Date>, creation: Option<Date>) -> Seq<char> {
    match creation {
        Some(c) => (match completion {
            Some(d) => date_text(d) + seq![' '],
            None => seq![],
        }) + date_text(c) + seq![' '],
        None => seq![],
    }
}

pub open spec fn readable_date(d: Option<Date>) -> bool {
    d matches Some(x) ==> x.wf() && 0 <= x.year <= 9999
}

proof fn lemma_read_opt_date(s: Seq<char>, i: int, d: Date)
    requires
        readable_date(Some(d)),
        0 <= i,
        i + 11 < s.len(),
        s.subrange(i, i + 10) == date_text(d),
        s[i + 10] == ' ',
        !in_class(CharClass::Space, s[i + 11]),
    ensures
        sp_opt_date(s, i) == Ok::<(int, Option<Date>), SFail>((i + 11, Some(d))),
{
    lemma_read_date(s, i, d);
    lemma_run_end_char(s, i + 10, i + 11, CharClass::Space);
}

/// The text does not start with a date: reading one fails and may be
/// recovered from.
pub open spec fn no_date_start(d: Seq<char>) -> bool {
    sp_date(d, 0) matches Err(f) && f.mode is Error
}

proof fn lemma_no_date(s: Seq<char>, i: int, r: Seq<char>)
    requires
        0 <= i <= s.len(),
        s.subrange(i, s.len() as int) == r,
        no_date_start(r),
    ensures
        sp_opt_date(s, i) == Ok::<(int, Option<Date>), SFail>((i, None)),
{
    let x = s.subrange(0, i);
    assert(s =~= x + r);
    lemma_suffix_line(x, r, 0);
    lemma_date_line(s, i, r, 0, false);
}

/// An optional date that is not there consumes nothing, and one that is there
/// is a date that parses, followed by spaces and tabs.
pub proof fn lemma_absent_date_consumes_nothing(s: Seq<char>, i: int)
    ensures
        sp_opt_date(s, i) matches Ok((j, None)) ==> j == i,
        sp_opt_date(s, i) matches Ok((j, Some(d))) ==> sp_date(s, i) matches Ok((k, d2))
            && d2 == d && j == sp_space0(s, k),
{
}

/// A date of the years 0 to 9999 is written with ten characters, the first a digit.
proof fn lemma_date_text_shape(c: Date)
    requires
        readable_date(Some(c)),
    ensures
        date_text(c).len() == 10,
        is_digit(date_text(c)[0]),
{
    reveal_with_fuel(pow10, 5);
    lemma_decimal_len(c.year as nat, 4);
    lemma_decimal_len(c.month as nat, 2);
    lemma_decimal_len(c.day as nat, 2);
    lemma_decimal(c.year as nat);
    let dd = decimal(c.year as nat);
    let zs = Seq::new((4 - dd.len()) as nat, |_i: int| '0');
    assert(padded(c.year as nat, 4) =~= zs + dd);
    if dd.len() < 4 {
        assert((zs + dd)[0] == '0');
    } else {
        assert((zs + dd)[0] == dd[0]);
    }
    let t = date_text(c);
    assert(t[0] == padded(c.year as nat, 4)[0]);
}

/// The dates of a task as text read back as its dates.
#[verifier::spinoff_prover]
#[verifier::rlimit(40)]
proof fn lemma_read_dates(s: Seq<char>, i: int, completion: Option<Date>, creation: Option<Date>, r: Seq<char>)
    -> (out: (int, Option<Date>, Option<Date>))
    requires
        readable_date(completion),
        readable_date(creation),
        completion is Some ==> creation is Some,
        0 <= i <= s.len(),
        s.subrange(i, s.len() as int) == dates_text(completion, creation) + r,
        r.len() > 0,
        no_date_start(r),
        !in_class(CharClass::Space, r[0]),
    ensures
        sp_opt_date(s, i) == Ok::<(int, Option<Date>), SFail>((out.0, out.1)),
        sp_opt_date(s, out.0) == Ok::<(int, Option<Date>), SFail>((i + dates_text(completion, creation).len(), out.2)),
        task_dates(out.1, out.2) == (completion, creation),
{
    let t = dates_text(completion, creation);
    let n = s.len() as int;
    assert(n - i == t.len() + r.len()) by { assert(s.subrange(i, n).len() == (t + r).len()); }
    assert forall|k: int| 0 <= k < t.len() + r.len() implies s[i + k] == (t + r)[k] by {
        assert(s[i + k] == s.subrange(i, n)[k]);
    }
    assert(s[i + t.len()] == r[0]) by { assert((t + r)[t.len() as int] == r[0]); }
    match creation {
        None => {
            assert(s.subrange(i, n) =~= r);
            lemma_no_date(s, i, r);
            (i, None, None)
        },
        Some(c) => {
            lemma_date_text_shape(c);
            match completion {
                None => {
                    assert(s.subrange(i, i + 10) =~= date_text(c)) by {
                        assert forall|k: int| 0 <= k < 10 implies s.subrange(i, i + 10)[k] == date_text(c)[k] by {
                            assert((t + r)[k] == t[k]);
                        }
                    }
                    assert(s[i + 10] == ' ') by { assert((t + r)[10] == t[10]); }
                    lemma_read_opt_date(s, i, c);
                    assert(t.len() == 11);
                    assert(s.subrange(i + 11, n) =~= r) by {
                        assert forall|k: int| 0 <= k < r.len() implies s.subrange(i + 11, n)[k] == r[k] by {
                            assert(s[i + 11 + k] == (t + r)[11 + k]);
                        }
                    }
                    lemma_no_date(s, i + 11, r);
                    (i + 11, Some(c), None)
                },
                Some(d) => {
                    lemma_date_text_shape(d);
                    assert(s.subrange(i, i + 10) =~= date_text(d)) by {
                        assert forall|k: int| 0 <= k < 10 implies s.subrange(i, i + 10)[k] == date_text(d)[k] by {
                            assert((t + r)[k] == t[k]);
                        }
                    }
                    assert(s[i + 10] == ' ') by { assert((t + r)[10] == t[10]); }
                    assert(s[i + 11] == date_text(c)[0]) by { assert((t + r)[11] == t[11]); }
                    lemma_read_opt_date(s, i, d);
                    assert(s.subrange(i + 11, i + 21) =~= date_text(c)) by {
                        assert forall|k: int| 0 <= k < 10 implies s.subrange(i + 11, i + 21)[k] == date_text(c)[k] by {
                            assert((t + r)[k + 11] == t[k + 11]);
                        }
                    }
                    assert(s[i + 21] == ' ') by { assert((t + r)[21] == t[21]); }
                    lemma_read_opt_date(s, i + 11, c);
                    (i + 11, Some(d), Some(c))
                },
            }
        },
    }
}

/// The completion mark and the priority of a task as text read back as themselves.
proof fn lemma_read_marks(s: Seq<char>, completed: bool, priority: Option<char>, r: Seq<char>)
    requires
        priority matches Some(c) ==> 'A' <= c && c <= 'Z',
        s == (if completed { seq!['x', ' '] } else { seq![] })
            + (match priority { Some(c) => seq!['(', c, ')', ' '], None => seq![] }) + r,
        r.len() > 0,
        r[0] != 'x',
        r[0] != '(',
        !in_class(CharClass::MultiSpace, r[0]),
    ensures
        sp_done_mark(s, 0) == Ok::<(int, bool), SFail>(((if completed { 2int } else { 0int }), completed)),
        sp_priority(s, if completed { 2int } else { 0int }) == Ok::<(int, Option<char>), SFail>(
            ((if completed { 2int } else { 0int }) + (if priority is Some { 4int } else { 0int }), priority)),
{
    let x: Seq<char> = if completed { seq!['x', ' '] } else { seq![] };
    let p: Seq<char> = match priority { Some(c) => seq!['(', c, ')', ' '], None => seq![] };
    let i1 = x.len() as int;
    assert(s[i1] == (p + r)[0]) by { assert((x + p + r)[i1] == (p + r)[0]); }
    assert(s[i1 + p.len()] == r[0]) by { assert((x + p + r)[i1 + p.len()] == r[0]); }
    if completed {
        assert(s[0] == 'x' && s[1] == ' ');
        lemma_run_end_char(s, 1, 2, CharClass::Space);
    }
    if let Some(c) = priority {
        assert(s[i1] == '(' && s[i1 + 1] == c && s[i1 + 2] == ')' && s[i1 + 3] == ' ');
        lemma_run_end_char(s, i1 + 3, i1 + 4, CharClass::MultiSpace);
    }
}

/// The text after the priority starts with a digit of a date or with the description.
proof fn lemma_dates_first(completion: Option<Date>, creation: Option<Date>, d: Seq<char>)
    requires
        readable_date(completion),
        readable_date(creation),
        completion is Some ==> creation is Some,
        plain_words(d),
        d[0] != 'x',
        d[0] != '(',
    ensures
        (dates_text(completion, creation) + d).len() > 0,
        (dates_text(completion, creation) + d)[0] != 'x',
        (dates_text(completion, creation) + d)[0] != '(',
        !in_class(CharClass::MultiSpace, (dates_text(completion, creation) + d)[0]),
{
    let t = dates_text(completion, creation);
    if let Some(c) = creation {
        lemma_date_text_shape(c);
        match completion {
            Some(dc) => { lemma_date_text_shape(dc); assert((t + d)[0] == date_text(dc)[0]); },
            None => { assert((t + d)[0] == date_text(c)[0]); },
        }
    } else {
        assert((t + d)[0] == d[0]);
    }
}

/// The description at the end of a task as text reads back whole, with its metadata.
proof fn lemma_read_description(s: Seq<char>, m: Seq<char>, d: Seq<char>)
    requires
        s == m + d,
        plain_words(d),
    ensures
        sp_description(s, m.len() as int) == Ok::<(int, Option<MetadataView>), SFail>((s.len() as int, description_metadata(d))),
        s.subrange(m.len() as int, s.len() as int) == d,
{
    lemma_suffix_line(m, d, 0);
    lemma_description_line(s, m.len() as int, d, 0);
    lemma_description_whole(d);
    assert(s.subrange(m.len() as int, s.len() as int) =~= d);
}

/// A task read from its parts.
proof fn lemma_todo_entry_parts(s: Seq<char>, i1: int, done: bool, i2: int, pri: Option<char>, i3: int,
    d1: Option<Date>, i4: int, d2: Option<Date>, i5: int, meta: Option<MetadataView>)
    requires
        sp_done_mark(s, 0) == Ok::<(int, bool), SFail>((i1, done)),
        sp_priority(s, i1) == Ok::<(int, Option<char>), SFail>((i2, pri)),
        sp_opt_date(s, i2) == Ok::<(int, Option<Date>), SFail>((i3, d1)),
        sp_opt_date(s, i3) == Ok::<(int, Option<Date>), SFail>((i4, d2)),
        sp_description(s, i4) == Ok::<(int, Option<MetadataView>), SFail>((i5, meta)),
    ensures
        sp_todo_entry(s, 0) == Ok::<(int, TodoEntryView), SFail>((i5, TodoEntryView {
            completed: done,
            priority: pri,
            completion_date: task_dates(d1, d2).0,
            creation_date: task_dates(d1, d2).1,
            description: s.subrange(i4, i5),
            metadata: meta,
        })),
{
}

/// Writing a task and reading it back gives the same task, when its
/// priority is a capital letter, it has a creation date whenever it has a
/// completion date, its dates lie in the years 0 to 9999, its description is
/// plain words that do not start with `x`, `(` or a date (a number not
/// followed by `-`, such as `2 eggs`, is fine), and its metadata is that of
/// its description.
pub proof fn lemma_todo_text_roundtrip(e: TodoEntryView)
    requires
        e.priority matches Some(c) ==> 'A' <= c && c <= 'Z',
        e.completion_date is Some ==> e.creation_date is Some,
        readable_date(e.completion_date),
        readable_date(e.creation_date),
        plain_words(e.description),
        e.description[0] != 'x',
        e.description[0] != '(',
        no_date_start(e.description),
        e.metadata == description_metadata(e.description),
    ensures
        sp_todo_entry(todo_text(e), 0) == Ok::<(int, TodoEntryView), SFail>((todo_text(e).len() as int, e)),
{
    let s = todo_text(e);
    let (i1, i2, i3, d1, i4, d2) = lemma_roundtrip_steps(e);
    lemma_read_task_description(e);
    lemma_todo_entry_parts(s, i1, e.completed, i2, e.priority, i3, d1, i4, d2, s.len() as int, e.metadata);
}

/// The description at the end of a task as text reads back whole.
proof fn lemma_read_task_description(e: TodoEntryView)
    requires
        plain_words(e.description),
        e.metadata == description_metadata(e.description),
    ensures
        todo_text(e).len() >= e.description.len(),
        sp_description(todo_text(e), todo_text(e).len() - e.description.len())
            == Ok::<(int, Option<MetadataView>), SFail>((todo_text(e).len() as int, e.metadata)),
        todo_text(e).subrange(todo_text(e).len() - e.description.len(), todo_text(e).len() as int) == e.description,
{
    let s = todo_text(e);
    let m = s.subrange(0, s.len() - e.description.len());
    assert(s =~= m + e.description);
    lemma_read_description(s, m, e.description);
}

/// The parts of a task as text read back one after the other.
#[verifier::spinoff_prover]
#[verifier::rlimit(60)]
proof fn lemma_roundtrip_steps(e: TodoEntryView) -> (r: (int, int, int, Option<Date>, int, Option<Date>))
    requires
        e.priority matches Some(c) ==> 'A' <= c && c <= 'Z',
        e.completion_date is Some ==> e.creation_date is Some,
        readable_date(e.completion_date),
        readable_date(e.creation_date),
        plain_words(e.description),
        e.description[0] != 'x',
        e.description[0] != '(',
        no_date_start(e.description),
        e.metadata == description_metadata(e.description),
    ensures
        sp_done_mark(todo_text(e), 0) == Ok::<(int, bool), SFail>((r.0, e.completed)),
        sp_priority(todo_text(e), r.0) == Ok::<(int, Option<char>), SFail>((r.1, e.priority)),
        sp_opt_date(todo_text(e), r.1) == Ok::<(int, Option<Date>), SFail>((r.2, r.3)),
        sp_opt_date(todo_text(e), r.2) == Ok::<(int, Option<Date>), SFail>((r.4, r.5)),
        task_dates(r.3, r.5) == (e.completion_date, e.creation_date),
        r.4 == todo_text(e).len() - e.description.len(),
{
    let x: Seq<char> = if e.completed { seq!['x', ' '] } else { seq![] };
    let p: Seq<char> = match e.priority { Some(c) => seq!['(', c, ')', ' '], None => seq![] };
    let t = dates_text(e.completion_date, e.creation_date);
    let d = e.description;
    let s = todo_text(e);
    let n = s.len() as int;
    let i1 = x.len() as int;
    let i2 = i1 + p.len();
    let i4 = i2 + t.len();
    assert(s =~= x + p + (t + d));
    assert(s =~= (x + p + t) + d);
    assert(s.subrange(i2, n) =~= t + d);
    lemma_dates_first(e.completion_date, e.creation_date, d);
    lemma_read_marks(s, e.completed, e.priority, t + d);
    let (i3, d1, d2) = lemma_read_dates(s, i2, e.completion_date, e.creation_date, d);
    (i1, i2, i3, d1, i4, d2)
}

} // verus!
