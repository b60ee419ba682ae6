//! Calendar files: one entry per line, an interval and a description.
use vstd::prelude::*;
use crate::entry::{CalendarEntry, CalendarEntryView, EntryMetadata, metadata_opt_view};
use crate::error::{ErrorKind, IResult, NomErrorKind};
use crate::iso8601::{Interval, sp_interval, p_interval};
use crate::parser::{sp_description, p_description, sp_words, lemma_words_start};
use crate::scan::{SRes, PRes, Fail, Mode, SMode, rv_by, serr, sfailure, bounded, complete, is_whitespace,
    sp_space1, sp_multispace0, p_space1, p_multispace0, fail_error, fail_failure, reports_by, report,
    CharClass, run_end, lemma_run_end, scan_run, trimmed, trim_range};
use vstd::string::StrSliceExecFns;
use crate::text::{chars_of, string_of_range, slice_chars};
use crate::lines::{shifted, lemma_calendar_entry_line, lemma_suffix_line, lemma_prefix_line, lemma_run_end_suffix,
    lemma_run_end_prefix, blank_tail, next_stop, is_stop, lemma_next_stop, lemma_calendar_entry_blank_tail};
use crate::scan::{in_class, lemma_run_end_char, SFail, trim_end_index};

verus! {

/// Every character is white space.
pub open spec fn all_whitespace(w: Seq<char>) -> bool {
    forall|k: int| 0 <= k < w.len() ==> is_whitespace(#[trigger] w[k])
}

/// An interval, spaces or tabs, and a description that is not blank.
pub open spec fn sp_calendar_entry(s: Seq<char>, i: int) -> SRes<CalendarEntryView> {
    match sp_interval(s, i) {
        Err(e) => Err(e),
        Ok((i1, iv)) => match sp_space1(s, i1) {
            Err(e) => Err(e),
            Ok((i2, _)) => match sp_description(s, i2) {
                Err(e) => Err(e),
                Ok((i3, meta)) => if all_whitespace(s.subrange(i2, i3)) {
                    Err(sfailure(i, ErrorKind::EmptyDescription))
                } else {
                    Ok((i3, CalendarEntryView { interval: iv, description: s.subrange(i2, i3), metadata: meta }))
                },
            },
        },
    }
}

pub open spec fn calendar_entry_view(e: CalendarEntry) -> CalendarEntryView {
    e@
}

pub fn p_calendar_entry(s: &Vec<char>, i: usize) -> (r: PRes<CalendarEntry>)
    requires
        i <= s@.len(),
    ensures
        rv_by(r, |e: CalendarEntry| calendar_entry_view(e)) == sp_calendar_entry(s@, i as int),
        bounded(r, i as int, s@.len() as int),
        complete(r),
        r matches Ok((j, _)) ==> i < j,
{
    let (i1, iv) = match p_interval(s, i) {
        Ok(x) => x,
        Err(e) => return Err(e),
    };
    let (i2, _) = match p_space1(s, i1) {
        Ok(x) => x,
        Err(e) => return Err(e),
    };
    let (i3, meta) = match p_description(s, i2) {
        Ok(x) => x,
        Err(e) => return Err(e),
    };
    proof {
        lemma_words_start(s@, i2 as int);
    }
    if i3 == i2 {
        assert(s@.subrange(i2 as int, i3 as int) =~= seq![]);
        Err(fail_failure(i, ErrorKind::EmptyDescription))
    } else {
        assert(s@.subrange(i2 as int, i3 as int)[0] == s@[i2 as int]);
        assert(!all_whitespace(s@.subrange(i2 as int, i3 as int)));
        let description = string_of_range(s, i2, i3);
        Ok((i3, CalendarEntry { interval: iv, description, metadata: meta }))
    }
}


/// Entries after the first, each after a run of white space that may be
/// empty; stops before a separator that is not followed by an entry. An entry
/// must consume input.
pub open spec fn sp_calendar_entries_from(s: Seq<char>, p: int) -> SRes<Seq<CalendarEntryView>>
    decreases s.len() - p,
{
    if 0 <= p <= s.len() {
        let k = sp_multispace0(s, p);
        match sp_calendar_entry(s, k) {
            Err(e) => if e.mode is Error { Ok((p, seq![])) } else { Err(e) },
            // an entry never ends past the end of the input
            Ok((j, x)) => if j <= p || j > s.len() {
                Err(serr(p, ErrorKind::Nom(NomErrorKind::SeparatedList)))
            } else {
                match sp_calendar_entries_from(s, j) {
                    Err(e) => Err(e),
                    Ok((e, rest)) => Ok((e, seq![x] + rest)),
                }
            },
        }
    } else {
        Ok((p, seq![]))
    }
}

/// Entries separated by white space; none when the first does not parse.
pub open spec fn sp_calendar_entries(s: Seq<char>) -> SRes<Seq<CalendarEntryView>> {
    match sp_calendar_entry(s, 0) {
        Err(e) => if e.mode is Error { Ok((0, seq![])) } else { Err(e) },
        Ok((j, x)) => match sp_calendar_entries_from(s, j) {
            Err(e) => Err(e),
            Ok((e, rest)) => Ok((e, seq![x] + rest)),
        },
    }
}

/// The whole of a calendar file, already trimmed, as entries.
pub open spec fn sp_calendar_file(t: Seq<char>) -> SRes<Seq<CalendarEntryView>> {
    match sp_calendar_entries(t) {
        Err(e) => Err(e),
        Ok((j, v)) => if j == t.len() { Ok((j, v)) } else { Err(serr(j, ErrorKind::Nom(NomErrorKind::Eof))) },
    }
}

pub open spec fn calendar_entries_view(v: Vec<CalendarEntry>) -> Seq<CalendarEntryView> {
    v@.map_values(|e: CalendarEntry| e@)
}

pub fn p_calendar_entries(s: &Vec<char>) -> (r: PRes<Vec<CalendarEntry>>)
    ensures
        rv_by(r, |v: Vec<CalendarEntry>| calendar_entries_view(v)) == sp_calendar_entries(s@),
        bounded(r, 0, s@.len() as int),
        complete(r),
{
    let mut out: Vec<CalendarEntry> = Vec::new();
    let (j0, x0) = match p_calendar_entry(s, 0) {
        Ok(x) => x,
        Err(e) => match e.mode {
            Mode::Error => {
                assert(calendar_entries_view(out) =~= seq![]);
                return Ok((0, out));
            },
            _ => return Err(e),
        },
    };
    out.push(x0);
    assert(calendar_entries_view(out) =~= seq![x0@]);
    let mut p = j0;
    loop
        invariant
            0 < p <= s@.len(),
            sp_calendar_entries(s@) == (match sp_calendar_entries_from(s@, p as int) {
                Err(e) => Err(e),
                Ok((e, rest)) => Ok((e, calendar_entries_view(out) + rest)),
            }),
        decreases s@.len() - p,
    {
        let k = p_multispace0(s, p);
        match p_calendar_entry(s, k) {
            Err(e) => match e.mode {
                Mode::Error => {
                    assert(calendar_entries_view(out) + seq![] =~= calendar_entries_view(out));
                    return Ok((p, out));
                },
                _ => return Err(e),
            },
            Ok((j, x)) => {
                if j == p {
                    return Err(fail_error(p, ErrorKind::Nom(NomErrorKind::SeparatedList)));
                }
                proof {
                    assert(calendar_entries_view(out) + (seq![x@] + calendar_entries_view(out).take(0))
                        =~= calendar_entries_view(out) + seq![x@]);
                }
                let ghost before = calendar_entries_view(out);
                out.push(x);
                proof {
                    assert(calendar_entries_view(out) =~= before.push(x@));
                    assert forall|rest: Seq<CalendarEntryView>| #[trigger] (before + (seq![x@] + rest)) == calendar_entries_view(out) + rest by {
                        assert(before + (seq![x@] + rest) =~= calendar_entries_view(out) + rest);
                    }
                }
                p = j;
            },
        }
    }
}

pub fn p_calendar_file(t: &Vec<char>) -> (r: PRes<Vec<CalendarEntry>>)
    ensures
        rv_by(r, |v: Vec<CalendarEntry>| calendar_entries_view(v)) == sp_calendar_file(t@),
        bounded(r, 0, t@.len() as int),
        complete(r),
{
    match p_calendar_entries(t) {
        Err(e) => Err(e),
        Ok((j, v)) => if j == t.len() {
            Ok((j, v))
        } else {
            Err(fail_error(j, ErrorKind::Nom(NomErrorKind::Eof)))
        },
    }
}

/// Parse file of calendar entries: the input without leading and trailing
/// white space must consist of entries separated by white space.
pub fn parse_calendar_file(input: &str) -> (r: IResult<'_, Vec<CalendarEntry>>)
    ensures
        reports_by(trimmed(input@), r, sp_calendar_file(trimmed(input@)), |v: Vec<CalendarEntry>| calendar_entries_view(v)),
        r matches Err(e) ==> !(e is Incomplete),
{
    let s = chars_of(input);
    let (a, b) = trim_range(&s);
    let t = slice_chars(&s, a, b);
    let text = input.substring_char(a, b);
    let res = p_calendar_file(&t);
    report(text, b - a, res)
}

/// Parse a calendar entry: an interval, spaces or tabs, and a description
/// that is not blank.
pub fn parse_calendar_entry(input: &str) -> (r: IResult<'_, CalendarEntry>)
    ensures
        reports_by(input@, r, sp_calendar_entry(input@, 0), |e: CalendarEntry| calendar_entry_view(e)),
        r matches Err(e) ==> !(e is Incomplete),
{
    let s = chars_of(input);
    let n = s.len();
    let res = p_calendar_entry(&s, 0);
    report(input, n, res)
}


/// A calendar entry never has a blank description.
pub proof fn lemma_calendar_description_not_blank(s: Seq<char>, i: int)
    ensures
        sp_calendar_entry(s, i) matches Ok((_, e)) ==> !all_whitespace(e.description),
{
}

/// The entries of `x + b` from `|x| + q` are those of `b` from `q`.
#[verifier::spinoff_prover]
proof fn lemma_entries_from_suffix(x: Seq<char>, b: Seq<char>, q: int)
    requires
        0 <= q <= b.len(),
    ensures
        sp_calendar_entries_from(x + b, x.len() + q) == shifted(sp_calendar_entries_from(b, q), x.len() as int),
    decreases b.len() - q,
{
    let s = x + b;
    let n = x.len() as int;
    lemma_run_end_suffix(x, b, q, CharClass::MultiSpace);
    let k = sp_multispace0(b, q);
    lemma_run_end(b, q, CharClass::MultiSpace);
    lemma_suffix_line(x, b, k);
    lemma_calendar_entry_line(s, n + k, b, k);
    if let Ok((j, _)) = sp_calendar_entry(b, k) {
        if q < j && j <= b.len() {
            lemma_entries_from_suffix(x, b, j);
        }
    }
}

/// White space between two calendar texts: runs of spaces, tabs, carriage
/// returns and line feeds, with a line feed at `w0` and none before it.
pub open spec fn separator(w: Seq<char>, w0: int) -> bool {
    &&& forall|k: int| 0 <= k < w.len() ==> in_class(CharClass::MultiSpace, #[trigger] w[k])
    &&& 0 <= w0 < w.len()
    &&& w[w0] == '\n'
    &&& blank_tail(w.take(w0))
}

/// An entry of `a` reads the same in `a + w + b`.
proof fn lemma_entry_in_join(a: Seq<char>, w: Seq<char>, b: Seq<char>, w0: int, k: int)
    requires
        separator(w, w0),
        0 <= k <= a.len(),
        sp_calendar_entry(a, k) is Ok,
    ensures
        sp_calendar_entry(a + w + b, k) == sp_calendar_entry(a, k),
{
    let t = w.take(w0);
    let a2 = a + t;
    let y = w.skip(w0) + b;
    assert(a + w + b =~= a2 + y);
    assert(y[0] == w[w0]);
    lemma_prefix_line(a2, y, k);
    lemma_calendar_entry_line(a2 + y, k, a2, k);
    lemma_calendar_entry_blank_tail(a, t, k);
}

/// The entries of `a + w + b` from a position `p` of `a` whose entries
/// reach the end of `a`: those of `a`, then all those of `b`.
#[verifier::spinoff_prover]
#[verifier::rlimit(40)]
proof fn lemma_entries_from_join(a: Seq<char>, w: Seq<char>, b: Seq<char>, w0: int, p: int, vb: Seq<CalendarEntryView>)
    requires
        0 <= p <= a.len(),
        separator(w, w0),
        b.len() > 0,
        !in_class(CharClass::MultiSpace, b[0]),
        sp_calendar_entries_from(a, p) matches Ok((e, _)) && e == a.len(),
        sp_calendar_entries(b) == Ok::<(int, Seq<CalendarEntryView>), SFail>((b.len() as int, vb)),
    ensures
        sp_calendar_entries_from(a + w + b, p) == Ok::<(int, Seq<CalendarEntryView>), SFail>(
            ((a.len() + w.len() + b.len()) as int, sp_calendar_entries_from(a, p)->Ok_0.1 + vb)),
    decreases a.len() - p,
{
    let s = a + w + b;
    let n = a.len() as int;
    let k = sp_multispace0(a, p);
    lemma_run_end(a, p, CharClass::MultiSpace);
    assert(a.subrange(k, next_stop(a, k, false)) =~= a.subrange(k, next_stop(a, k, false)));
    lemma_calendar_entry_line(a, k, a, k);
    match sp_calendar_entry(a, k) {
        Err(f) => {
            // the entries of `a` stop at its end, where `b` begins after the white space
            assert(p == n && k == n);
            assert forall|m: int| n <= m < n + w.len() implies in_class(CharClass::MultiSpace, #[trigger] s[m]) by {
                assert(s[m] == w[m - n]);
            }
            assert(s[n + w.len()] == b[0]);
            lemma_run_end_char(s, n, n + w.len(), CharClass::MultiSpace);
            let x = a + w;
            assert(s =~= x + b);
            lemma_suffix_line(x, b, 0);
            lemma_calendar_entry_line(s, n + w.len(), b, 0);
            assert(b.subrange(0, next_stop(b, 0, false)) =~= b.subrange(0, next_stop(b, 0, false)));
            lemma_calendar_entry_line(b, 0, b, 0);
            if let Ok((j, _)) = sp_calendar_entry(b, 0) {
                lemma_entries_from_suffix(x, b, j);
            }
            assert(seq![] + vb =~= vb);
        },
        Ok((j, v)) => {
            assert(k < j && j <= n);
            lemma_run_end_prefix(a, w + b, p, CharClass::MultiSpace);
            assert(s =~= a + (w + b));
            lemma_entry_in_join(a, w, b, w0, k);
            lemma_entries_from_join(a, w, b, w0, j, vb);
            let rest = sp_calendar_entries_from(a, j)->Ok_0.1;
            assert(seq![v] + (rest + vb) =~= (seq![v] + rest) + vb);
        },
    }
}

/// Two calendar texts joined by white space with a line feed in it: the
/// entries are those of the first followed by those of the second.
#[verifier::spinoff_prover]
proof fn lemma_join_parse(a: Seq<char>, w: Seq<char>, b: Seq<char>, w0: int)
    requires
        a.len() > 0,
        b.len() > 0,
        separator(w, w0),
        !is_whitespace(b[0]),
        sp_calendar_file(a) is Ok,
        sp_calendar_file(b) is Ok,
    ensures
        sp_calendar_file(a + w + b) == Ok::<(int, Seq<CalendarEntryView>), SFail>(
            ((a.len() + w.len() + b.len()) as int, sp_calendar_file(a)->Ok_0.1 + sp_calendar_file(b)->Ok_0.1)),
{
    let s = a + w + b;
    let vb = sp_calendar_file(b)->Ok_0.1;
    assert(sp_calendar_entries(b) == Ok::<(int, Seq<CalendarEntryView>), SFail>((b.len() as int, vb)));
    if let Ok((j, v)) = sp_calendar_entry(a, 0) {
        lemma_entry_in_join(a, w, b, w0, 0);
        lemma_entries_from_join(a, w, b, w0, j, vb);
        let rest = sp_calendar_entries_from(a, j)->Ok_0.1;
        assert(seq![v] + (rest + vb) =~= (seq![v] + rest) + vb);
    }
}

/// Where trimming cuts a text that is not all white space: white space
/// before `run_end(x, 0, Whitespace)` and from `trim_end_index(x, |x|)` on,
/// characters that are not white space at both ends of what is kept.
proof fn lemma_trim_parts(x: Seq<char>)
    requires
        trimmed(x).len() > 0,
    ensures
        0 <= run_end(x, 0, CharClass::Whitespace) < trim_end_index(x, x.len() as int) <= x.len(),
        trimmed(x) == x.subrange(run_end(x, 0, CharClass::Whitespace), trim_end_index(x, x.len() as int)),
        forall|k: int| 0 <= k < run_end(x, 0, CharClass::Whitespace) ==> is_whitespace(#[trigger] x[k]),
        forall|k: int| trim_end_index(x, x.len() as int) <= k < x.len() ==> is_whitespace(#[trigger] x[k]),
        !is_whitespace(x[run_end(x, 0, CharClass::Whitespace)]),
        !is_whitespace(x[trim_end_index(x, x.len() as int) - 1]),
{
    lemma_run_end(x, 0, CharClass::Whitespace);
    crate::scan::lemma_trim_end_index(x, x.len() as int);
    lemma_trim_end_last(x, x.len() as int);
}

proof fn lemma_trim_end_last(x: Seq<char>, k: int)
    requires
        0 <= k <= x.len(),
    ensures
        trim_end_index(x, k) > 0 ==> !is_whitespace(x[trim_end_index(x, k) - 1]),
    decreases k,
{
    if 0 < k && is_whitespace(x[k - 1]) {
        lemma_trim_end_last(x, k - 1);
    }
}

/// Trimming the end of `x + y` stops within `y` where trimming `y` does.
proof fn lemma_trim_end_suffix(x: Seq<char>, y: Seq<char>, k: int)
    requires
        0 <= k <= y.len(),
        trim_end_index(y, k) > 0,
    ensures
        trim_end_index(x + y, x.len() + k) == x.len() + trim_end_index(y, k),
    decreases k,
{
    if k > 0 {
        assert((x + y)[x.len() + k - 1] == y[k - 1]);
        if is_whitespace(y[k - 1]) {
            lemma_trim_end_suffix(x, y, k - 1);
        }
    }
}

/// Joining two calendar texts with a line break, where the only white space
/// is spaces, tabs, carriage returns and line feeds: the entries of the
/// joined text are those of the first followed by those of the second,
/// whatever blank lines and white space surround them.
pub proof fn lemma_calendar_files_join(a: Seq<char>, b: Seq<char>)
    requires
        forall|k: int| 0 <= k < a.len() && is_whitespace(#[trigger] a[k]) ==> in_class(CharClass::MultiSpace, a[k]),
        forall|k: int| 0 <= k < b.len() && is_whitespace(#[trigger] b[k]) ==> in_class(CharClass::MultiSpace, b[k]),
        trimmed(a).len() > 0,
        trimmed(b).len() > 0,
        sp_calendar_file(trimmed(a)) is Ok,
        sp_calendar_file(trimmed(b)) is Ok,
    ensures
        sp_calendar_file(trimmed(a + seq!['\n'] + b)) == Ok::<(int, Seq<CalendarEntryView>), SFail>(
            (trimmed(a + seq!['\n'] + b).len() as int,
                sp_calendar_file(trimmed(a))->Ok_0.1 + sp_calendar_file(trimmed(b))->Ok_0.1)),
{
    lemma_trim_parts(a);
    lemma_trim_parts(b);
    let sa = run_end(a, 0, CharClass::Whitespace);
    let ea = trim_end_index(a, a.len() as int);
    let sb = run_end(b, 0, CharClass::Whitespace);
    let eb = trim_end_index(b, b.len() as int);
    let x = a + seq!['\n'];
    let j = x + b;
    assert(a + seq!['\n'] + b =~= j);
    assert(j =~= a + (seq!['\n'] + b));
    lemma_run_end_prefix(a, seq!['\n'] + b, 0, CharClass::Whitespace);
    lemma_trim_end_suffix(x, b, b.len() as int);
    let big_a = trimmed(a);
    let big_b = trimmed(b);
    let w = a.subrange(ea, a.len() as int) + seq!['\n'] + b.subrange(0, sb);
    assert(trimmed(j) =~= big_a + w + big_b);
    let wn = (a.len() - ea) as int;
    assert(w[wn] == '\n');
    assert forall|k: int| 0 <= k < w.len() implies in_class(CharClass::MultiSpace, #[trigger] w[k]) by {
        if k < wn {
            assert(w[k] == a[ea + k]);
        } else if k > wn {
            assert(w[k] == b[k - wn - 1]);
        }
    }
    lemma_next_stop(w, 0, false);
    let w0 = next_stop(w, 0, false);
    assert(w0 <= wn) by {
        if w0 > wn {
            assert(!is_stop(w[wn], false));
        }
    }
    assert(blank_tail(w.take(w0))) by {
        assert forall|k: int| 0 <= k < w.take(w0).len() implies #[trigger] w.take(w0)[k] == ' '
            || w.take(w0)[k] == '\t' || w.take(w0)[k] == '\r' by {
            assert(w.take(w0)[k] == w[k]);
            assert(in_class(CharClass::MultiSpace, w[k]));
            assert(!is_stop(w[k], false));
        }
    }
    assert(big_b[0] == b[sb]);
    lemma_join_parse(big_a, w, big_b, w0);
}

} // verus!
