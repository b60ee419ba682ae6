//! What a parser of a calendar entry reads: the characters from its position
//! up to the next line feed, and nothing else. Proved for each parser of the
//! entry grammar, so that joining calendar texts keeps their entries.
use vstd::prelude::*;
use crate::dates::DateTime;
use crate::iso8601::{End, TimeDuration, sp_date, sp_colon_u16, sp_time, sp_timestamp, sp_unit, sp_period, sp_start, sp_end,
    sp_slash_end, sp_recurring, sp_interval_parts, sp_interval};
use crate::parser::{sp_words_from, sp_words, sp_description, span_words};
use crate::calendar::{sp_calendar_entry, all_whitespace};
use crate::scan::{SRes, SFail, CharClass, in_class, is_whitespace, scut, lemma_run_end, lemma_run_end_char, run_end, sp_char, sp_u16, sp_space1, sp_word, sp_tag2,
    sp_space0, sp_multispace0};

verus! {

/// The characters at which a piece of input ends: a line feed, or with
/// `ws` any white space.
pub open spec fn is_stop(c: char, ws: bool) -> bool {
    if ws { is_whitespace(c) } else { c == '\n' }
}

/// The first position at or after `k` that holds a stop character, or the
/// length of `s`.
pub open spec fn next_stop(s: Seq<char>, k: int, ws: bool) -> int
    decreases s.len() - k,
{
    if k < 0 || k >= s.len() {
        s.len() as int
    } else if is_stop(s[k], ws) {
        k
    } else {
        next_stop(s, k + 1, ws)
    }
}

/// `f` with its position moved by `d`.
pub open spec fn shift_fail(f: SFail, d: int) -> SFail {
    SFail { pos: f.pos + d, ..f }
}

/// `r` with every position in it moved by `d`.
pub open spec fn shifted<T>(r: SRes<T>, d: int) -> SRes<T> {
    match r {
        Ok((j, v)) => Ok((j + d, v)),
        Err(f) => Err(shift_fail(f, d)),
    }
}

/// `s` from `i` and `u` from `o` hold the same line: the same characters
/// up to the next line feed or the end.
pub open spec fn same_line(s: Seq<char>, i: int, u: Seq<char>, o: int, ws: bool) -> bool {
    &&& 0 <= i <= s.len()
    &&& 0 <= o <= u.len()
    &&& next_stop(s, i, ws) - i == next_stop(u, o, ws) - o
    &&& s.subrange(i, next_stop(s, i, ws)) == u.subrange(o, next_stop(u, o, ws))
}

/// The parse `r1` of `s` at `i` is the parse `r2` of `u` at `o`, moved to
/// `i`, and it ends on the line of `i`.
pub open spec fn local_res<T>(r1: SRes<T>, r2: SRes<T>, s: Seq<char>, i: int, o: int, ws: bool) -> bool {
    &&& r1 == shifted(r2, i - o)
    &&& (r1 matches Ok((j, _)) ==> i <= j <= next_stop(s, i, ws))
}

/// Classes that do not hold a line feed.
pub open spec fn line_class(k: CharClass, ws: bool) -> bool {
    !(k is MultiSpace) && !(k is Whitespace) && (ws ==> !(k is Space))
}

pub proof fn lemma_next_stop(s: Seq<char>, i: int, ws: bool)
    requires
        0 <= i <= s.len(),
    ensures
        i <= next_stop(s, i, ws) <= s.len(),
        forall|k: int| i <= k < next_stop(s, i, ws) ==> !is_stop(#[trigger] s[k], ws),
        next_stop(s, i, ws) < s.len() ==> is_stop(s[next_stop(s, i, ws)], ws),
    decreases s.len() - i,
{
    if i < s.len() && !is_stop(s[i], ws) {
        lemma_next_stop(s, i + 1, ws);
    }
}

pub proof fn lemma_next_stop_within(s: Seq<char>, i: int, j: int, ws: bool)
    requires
        0 <= i <= j <= next_stop(s, i, ws),
        i <= s.len(),
    ensures
        next_stop(s, j, ws) == next_stop(s, i, ws),
    decreases j - i,
{
    lemma_next_stop(s, i, ws);
    if i < j {
        lemma_next_stop(s, i + 1, ws);
        lemma_next_stop_within(s, i + 1, j, ws);
    }
}

/// The line of `i` also holds any later position on it.
pub proof fn lemma_same_line_at(s: Seq<char>, i: int, u: Seq<char>, o: int, j: int, ws: bool)
    requires
        same_line(s, i, u, o, ws),
        i <= j <= next_stop(s, i, ws),
    ensures
        same_line(s, j, u, o + (j - i), ws),
        next_stop(s, j, ws) == next_stop(s, i, ws),
        next_stop(u, o + (j - i), ws) == next_stop(u, o, ws),
{
    lemma_next_stop(s, i, ws);
    lemma_next_stop(u, o, ws);
    lemma_next_stop_within(s, i, j, ws);
    lemma_next_stop_within(u, o, o + (j - i), ws);
    let n = next_stop(s, i, ws);
    let m = next_stop(u, o, ws);
    assert(s.subrange(j, n) =~= s.subrange(i, n).subrange(j - i, n - i));
    assert(u.subrange(o + (j - i), m) =~= u.subrange(o, m).subrange(j - i, m - o));
}

/// On a shared line the characters agree, and the line ends alike.
pub proof fn lemma_same_line_char(s: Seq<char>, i: int, u: Seq<char>, o: int, k: int, ws: bool)
    requires
        same_line(s, i, u, o, ws),
        i <= k <= next_stop(s, i, ws),
    ensures
        k < next_stop(s, i, ws) ==> 0 <= k < s.len() && 0 <= k - i + o < u.len() && s[k] == u[k - i + o]
            && !is_stop(s[k], ws),
        k == next_stop(s, i, ws) ==> (k >= s.len() || is_stop(s[k], ws)) && (k - i + o >= u.len() || is_stop(u[k - i + o], ws)),
{
    lemma_next_stop(s, i, ws);
    lemma_next_stop(u, o, ws);
    let n = next_stop(s, i, ws);
    if k < n {
        assert(s.subrange(i, n)[k - i] == u.subrange(o, next_stop(u, o, ws))[k - i]);
    }
}

/// A piece of a shared line is the same piece in both.
pub proof fn lemma_same_line_sub(s: Seq<char>, i: int, u: Seq<char>, o: int, a: int, b: int, ws: bool)
    requires
        same_line(s, i, u, o, ws),
        i <= a <= b <= next_stop(s, i, ws),
    ensures
        s.subrange(a, b) == u.subrange(a - i + o, b - i + o),
{
    lemma_next_stop(s, i, ws);
    lemma_next_stop(u, o, ws);
    let n = next_stop(s, i, ws);
    let m = next_stop(u, o, ws);
    assert(s.subrange(a, b) =~= s.subrange(i, n).subrange(a - i, b - i));
    assert(u.subrange(a - i + o, b - i + o) =~= u.subrange(o, m).subrange(a - i, b - i));
}

pub proof fn lemma_run_end_line(s: Seq<char>, i: int, u: Seq<char>, o: int, k: CharClass, ws: bool)
    requires
        same_line(s, i, u, o, ws),
        line_class(k, ws),
    ensures
        run_end(s, i, k) - i == run_end(u, o, k) - o,
        i <= run_end(s, i, k) <= next_stop(s, i, ws),
    decreases s.len() - i,
{
    lemma_next_stop(s, i, ws);
    let n = next_stop(s, i, ws);
    lemma_same_line_char(s, i, u, o, i, ws);
    if i < n {
        if in_class(k, s[i]) {
            lemma_same_line_at(s, i, u, o, i + 1, ws);
            lemma_run_end_line(s, i + 1, u, o + 1, k, ws);
        }
    }
}

pub proof fn lemma_char_line(s: Seq<char>, i: int, u: Seq<char>, o: int, c: char, ws: bool)
    requires
        same_line(s, i, u, o, ws),
        !is_stop(c, ws),
    ensures
        local_res(sp_char(s, i, c), sp_char(u, o, c), s, i, o, ws),
{
    lemma_next_stop(s, i, ws);
    lemma_same_line_char(s, i, u, o, i, ws);
}

pub proof fn lemma_tag2_line(s: Seq<char>, i: int, u: Seq<char>, o: int, a: char, b: char, ws: bool)
    requires
        same_line(s, i, u, o, ws),
        !is_stop(a, ws),
        !is_stop(b, ws),
    ensures
        local_res(sp_tag2(s, i, a, b), sp_tag2(u, o, a, b), s, i, o, ws),
{
    lemma_next_stop(s, i, ws);
    lemma_same_line_char(s, i, u, o, i, ws);
    if i < next_stop(s, i, ws) {
        lemma_same_line_char(s, i, u, o, i + 1, ws);
    }
}

pub proof fn lemma_u16_line(s: Seq<char>, i: int, u: Seq<char>, o: int, ws: bool)
    requires
        same_line(s, i, u, o, ws),
    ensures
        local_res(sp_u16(s, i), sp_u16(u, o), s, i, o, ws),
{
    lemma_run_end_line(s, i, u, o, CharClass::Digit, ws);
    let j = run_end(s, i, CharClass::Digit);
    lemma_same_line_sub(s, i, u, o, i, j, ws);
}

pub proof fn lemma_space1_line(s: Seq<char>, i: int, u: Seq<char>, o: int)
    requires
        same_line(s, i, u, o, false),
    ensures
        local_res(sp_space1(s, i), sp_space1(u, o), s, i, o, false),
        sp_space0(s, i) - i == sp_space0(u, o) - o,
        i <= sp_space0(s, i) <= next_stop(s, i, false),
{
    lemma_run_end_line(s, i, u, o, CharClass::Space, false);
}

pub proof fn lemma_word_line(s: Seq<char>, i: int, u: Seq<char>, o: int, ws: bool)
    requires
        same_line(s, i, u, o, ws),
    ensures
        local_res(sp_word(s, i), sp_word(u, o), s, i, o, ws),
{
    lemma_run_end_line(s, i, u, o, CharClass::NotWhitespace, ws);
}

pub proof fn lemma_date_line(s: Seq<char>, i: int, u: Seq<char>, o: int, ws: bool)
    requires
        same_line(s, i, u, o, ws),
    ensures
        local_res(sp_date(s, i), sp_date(u, o), s, i, o, ws),
{
    let n = next_stop(s, i, ws);
    lemma_u16_line(s, i, u, o, ws);
    if let Ok((i1, _)) = sp_u16(s, i) {
        lemma_same_line_at(s, i, u, o, i1, ws);
        lemma_char_line(s, i1, u, i1 - i + o, '-', ws);
        if let Ok((i2, _)) = sp_char(s, i1, '-') {
            lemma_same_line_at(s, i1, u, i1 - i + o, i2, ws);
            lemma_u16_line(s, i2, u, i2 - i + o, ws);
            if let Ok((i3, _)) = sp_u16(s, i2) {
                lemma_same_line_at(s, i2, u, i2 - i + o, i3, ws);
                lemma_char_line(s, i3, u, i3 - i + o, '-', ws);
                if let Ok((i4, _)) = sp_char(s, i3, '-') {
                    lemma_same_line_at(s, i3, u, i3 - i + o, i4, ws);
                    lemma_u16_line(s, i4, u, i4 - i + o, ws);
                }
            }
        }
    }
}

pub proof fn lemma_colon_u16_line(s: Seq<char>, i: int, u: Seq<char>, o: int, ws: bool)
    requires
        same_line(s, i, u, o, ws),
    ensures
        local_res(sp_colon_u16(s, i), sp_colon_u16(u, o), s, i, o, ws),
{
    lemma_next_stop(s, i, ws);
    lemma_char_line(s, i, u, o, ':', ws);
    if let Ok((j, _)) = sp_char(s, i, ':') {
        lemma_same_line_at(s, i, u, o, j, ws);
        lemma_u16_line(s, j, u, j - i + o, ws);
    }
}

pub proof fn lemma_time_line(s: Seq<char>, i: int, u: Seq<char>, o: int, ws: bool)
    requires
        same_line(s, i, u, o, ws),
    ensures
        local_res(sp_time(s, i), sp_time(u, o), s, i, o, ws),
{
    lemma_u16_line(s, i, u, o, ws);
    if let Ok((i1, _)) = sp_u16(s, i) {
        lemma_same_line_at(s, i, u, o, i1, ws);
        lemma_colon_u16_line(s, i1, u, i1 - i + o, ws);
        if let Ok((i2, _)) = sp_colon_u16(s, i1) {
            lemma_same_line_at(s, i1, u, i1 - i + o, i2, ws);
            lemma_colon_u16_line(s, i2, u, i2 - i + o, ws);
        }
    }
}

pub proof fn lemma_timestamp_line(s: Seq<char>, i: int, u: Seq<char>, o: int, ws: bool)
    requires
        same_line(s, i, u, o, ws),
    ensures
        local_res(sp_timestamp(s, i), sp_timestamp(u, o), s, i, o, ws),
{
    lemma_date_line(s, i, u, o, ws);
    if let Ok((i1, _)) = sp_date(s, i) {
        lemma_same_line_at(s, i, u, o, i1, ws);
        lemma_char_line(s, i1, u, i1 - i + o, 'T', ws);
        if let Ok((i2, _)) = sp_char(s, i1, 'T') {
            lemma_same_line_at(s, i1, u, i1 - i + o, i2, ws);
            lemma_time_line(s, i2, u, i2 - i + o, ws);
        }
    }
}

pub proof fn lemma_unit_line(s: Seq<char>, i: int, u: Seq<char>, o: int, unit: char, ws: bool)
    requires
        same_line(s, i, u, o, ws),
        !is_stop(unit, ws),
    ensures
        sp_unit(s, i, unit).0 - i == sp_unit(u, o, unit).0 - o,
        sp_unit(s, i, unit).1 == sp_unit(u, o, unit).1,
        i <= sp_unit(s, i, unit).0 <= next_stop(s, i, ws),
{
    reveal(sp_unit);
    lemma_next_stop(s, i, ws);
    lemma_u16_line(s, i, u, o, ws);
    if let Ok((j, _)) = sp_u16(s, i) {
        lemma_same_line_at(s, i, u, o, j, ws);
        lemma_char_line(s, j, u, j - i + o, unit, ws);
    }
}

pub proof fn lemma_period_line(s: Seq<char>, i: int, u: Seq<char>, o: int, ws: bool)
    requires
        same_line(s, i, u, o, ws),
    ensures
        local_res(sp_period(s, i), sp_period(u, o), s, i, o, ws),
{
    let d = i - o;
    lemma_unit_line(s, i, u, o, 'Y', ws);
    let i1 = sp_unit(s, i, 'Y').0;
    lemma_same_line_at(s, i, u, o, i1, ws);
    lemma_unit_line(s, i1, u, i1 - d, 'M', ws);
    let i2 = sp_unit(s, i1, 'M').0;
    lemma_same_line_at(s, i, u, o, i2, ws);
    lemma_unit_line(s, i2, u, i2 - d, 'W', ws);
    let i3 = sp_unit(s, i2, 'W').0;
    lemma_same_line_at(s, i, u, o, i3, ws);
    lemma_unit_line(s, i3, u, i3 - d, 'D', ws);
    let i4 = sp_unit(s, i3, 'D').0;
    lemma_same_line_at(s, i, u, o, i4, ws);
    lemma_same_line_char(s, i, u, o, i4, ws);
    lemma_same_line_char(s, i, u, o, i, ws);
    if 0 <= i4 < s.len() && s[i4] == 'T' {
        lemma_same_line_at(s, i, u, o, i4 + 1, ws);
        lemma_unit_line(s, i4 + 1, u, i4 + 1 - d, 'H', ws);
        let i5 = sp_unit(s, i4 + 1, 'H').0;
        lemma_same_line_at(s, i, u, o, i5, ws);
        lemma_unit_line(s, i5, u, i5 - d, 'M', ws);
        let i6 = sp_unit(s, i5, 'M').0;
        lemma_same_line_at(s, i, u, o, i6, ws);
        lemma_unit_line(s, i6, u, i6 - d, 'S', ws);
    }
}

pub proof fn lemma_start_line(s: Seq<char>, i: int, u: Seq<char>, o: int, ws: bool)
    requires
        same_line(s, i, u, o, ws),
    ensures
        local_res(sp_start(s, i), sp_start(u, o), s, i, o, ws),
{
    lemma_timestamp_line(s, i, u, o, ws);
    lemma_date_line(s, i, u, o, ws);
}

pub proof fn lemma_end_line(s: Seq<char>, i: int, u: Seq<char>, o: int, ws: bool)
    requires
        same_line(s, i, u, o, ws),
    ensures
        local_res(sp_end(s, i), sp_end(u, o), s, i, o, ws),
{
    lemma_char_line(s, i, u, o, 'P', ws);
    if let Ok((j, _)) = sp_char(s, i, 'P') {
        lemma_same_line_at(s, i, u, o, j, ws);
        lemma_period_line(s, j, u, j - i + o, ws);
    }
    lemma_timestamp_line(s, i, u, o, ws);
    lemma_date_line(s, i, u, o, ws);
    lemma_time_line(s, i, u, o, ws);
}

pub proof fn lemma_slash_end_line(s: Seq<char>, i: int, u: Seq<char>, o: int, cut: bool, ws: bool)
    requires
        same_line(s, i, u, o, ws),
    ensures
        local_res(sp_slash_end(s, i, cut), sp_slash_end(u, o, cut), s, i, o, ws),
{
    lemma_next_stop(s, i, ws);
    lemma_char_line(s, i, u, o, '/', ws);
    if let Ok((j, _)) = sp_char(s, i, '/') {
        lemma_same_line_at(s, i, u, o, j, ws);
        lemma_end_line(s, j, u, j - i + o, ws);
    }
}

/// What a recurring interval reads after its start.
pub open spec fn recurring_tail(s: Seq<char>, i2: int, start: DateTime) -> SRes<(DateTime, Option<End>, Option<TimeDuration>)> {
    match sp_slash_end(s, i2, false) {
        Err(e) => Err(e),
        Ok((i3, end)) => match sp_tag2(s, i3, '/', 'F') {
            Err(e) => Err(e),
            Ok((i4, _)) => match sp_period(s, i4) {
                Err(e) => Err(scut(e)),
                Ok((i5, p)) => Ok((i5, (start, end, Some(p)))),
            },
        },
    }
}

proof fn lemma_recurring_tail_line(s: Seq<char>, i: int, u: Seq<char>, o: int, i2: int, start: DateTime, ws: bool)
    requires
        same_line(s, i, u, o, ws),
        i <= i2 <= next_stop(s, i, ws),
    ensures
        local_res(recurring_tail(s, i2, start), recurring_tail(u, i2 - i + o, start), s, i, o, ws),
{
    let d = i - o;
    lemma_same_line_at(s, i, u, o, i2, ws);
    lemma_slash_end_line(s, i2, u, i2 - d, false, ws);
    if let Ok((i3, _)) = sp_slash_end(s, i2, false) {
        lemma_same_line_at(s, i, u, o, i3, ws);
        lemma_tag2_line(s, i3, u, i3 - d, '/', 'F', ws);
        if let Ok((i4, _)) = sp_tag2(s, i3, '/', 'F') {
            lemma_same_line_at(s, i, u, o, i4, ws);
            lemma_period_line(s, i4, u, i4 - d, ws);
        }
    }
}

pub proof fn lemma_recurring_line(s: Seq<char>, i: int, u: Seq<char>, o: int, ws: bool)
    requires
        same_line(s, i, u, o, ws),
    ensures
        local_res(sp_recurring(s, i), sp_recurring(u, o), s, i, o, ws),
{
    let d = i - o;
    lemma_tag2_line(s, i, u, o, 'R', '/', ws);
    if let Ok((i1, _)) = sp_tag2(s, i, 'R', '/') {
        lemma_same_line_at(s, i, u, o, i1, ws);
        lemma_start_line(s, i1, u, i1 - d, ws);
        if let Ok((i2, start)) = sp_start(s, i1) {
            lemma_same_line_at(s, i, u, o, i2, ws);
            lemma_recurring_tail_line(s, i, u, o, i2, start, ws);
            assert(sp_recurring(s, i) == recurring_tail(s, i2, start));
            assert(sp_recurring(u, o) == recurring_tail(u, i2 - d, start));
        }
    }
}

pub proof fn lemma_interval_parts_line(s: Seq<char>, i: int, u: Seq<char>, o: int, ws: bool)
    requires
        same_line(s, i, u, o, ws),
    ensures
        local_res(sp_interval_parts(s, i), sp_interval_parts(u, o), s, i, o, ws),
{
    lemma_recurring_line(s, i, u, o, ws);
    lemma_start_line(s, i, u, o, ws);
    if let Ok((i1, _)) = sp_start(s, i) {
        lemma_same_line_at(s, i, u, o, i1, ws);
        lemma_slash_end_line(s, i1, u, i1 - i + o, true, ws);
    }
}

pub proof fn lemma_interval_line(s: Seq<char>, i: int, u: Seq<char>, o: int, ws: bool)
    requires
        same_line(s, i, u, o, ws),
    ensures
        local_res(sp_interval(s, i), sp_interval(u, o), s, i, o, ws),
{
    reveal(sp_interval);
    lemma_interval_parts_line(s, i, u, o, ws);
}

pub proof fn lemma_words_from_line(s: Seq<char>, i: int, u: Seq<char>, o: int)
    requires
        same_line(s, i, u, o, false),
    ensures
        sp_words_from(s, i).0 - i == sp_words_from(u, o).0 - o,
        i <= sp_words_from(s, i).0 <= next_stop(s, i, false),
        span_words(s, sp_words_from(s, i).1) == span_words(u, sp_words_from(u, o).1),
    decreases s.len() - i,
{
    let d = i - o;
    lemma_next_stop(s, i, false);
    lemma_space1_line(s, i, u, o);
    let k = sp_space0(s, i);
    lemma_same_line_at(s, i, u, o, k, false);
    lemma_word_line(s, k, u, k - d, false);
    match sp_word(s, k) {
        Err(_) => {
            assert(span_words(s, seq![]) =~= span_words(u, seq![]));
        },
        Ok((j, _)) => {
            lemma_same_line_at(s, i, u, o, j, false);
            lemma_words_from_line(s, j, u, j - d);
            lemma_same_line_sub(s, i, u, o, k, j, false);
            let r1 = sp_words_from(s, j).1;
            let r2 = sp_words_from(u, j - d).1;
            assert(span_words(s, seq![(k, j)] + r1) =~= seq![s.subrange(k, j)] + span_words(s, r1));
            assert(span_words(u, seq![(k - d, j - d)] + r2) =~= seq![u.subrange(k - d, j - d)] + span_words(u, r2));
        },
    }
}

pub proof fn lemma_words_line(s: Seq<char>, i: int, u: Seq<char>, o: int)
    requires
        same_line(s, i, u, o, false),
    ensures
        sp_words(s, i).0 - i == sp_words(u, o).0 - o,
        i <= sp_words(s, i).0 <= next_stop(s, i, false),
        span_words(s, sp_words(s, i).1) == span_words(u, sp_words(u, o).1),
{
    let d = i - o;
    lemma_next_stop(s, i, false);
    lemma_word_line(s, i, u, o, false);
    match sp_word(s, i) {
        Err(_) => {
            assert(span_words(s, seq![]) =~= span_words(u, seq![]));
        },
        Ok((j, _)) => {
            lemma_same_line_at(s, i, u, o, j, false);
            lemma_words_from_line(s, j, u, j - d);
            lemma_same_line_sub(s, i, u, o, i, j, false);
            let r1 = sp_words_from(s, j).1;
            let r2 = sp_words_from(u, j - d).1;
            assert(span_words(s, seq![(i, j)] + r1) =~= seq![s.subrange(i, j)] + span_words(s, r1));
            assert(span_words(u, seq![(o, j - d)] + r2) =~= seq![u.subrange(o, j - d)] + span_words(u, r2));
        },
    }
}

pub proof fn lemma_description_line(s: Seq<char>, i: int, u: Seq<char>, o: int)
    requires
        same_line(s, i, u, o, false),
    ensures
        local_res(sp_description(s, i), sp_description(u, o), s, i, o, false),
{
    reveal(sp_description);
    lemma_words_line(s, i, u, o);
}

pub proof fn lemma_calendar_entry_line(s: Seq<char>, i: int, u: Seq<char>, o: int)
    requires
        same_line(s, i, u, o, false),
    ensures
        local_res(sp_calendar_entry(s, i), sp_calendar_entry(u, o), s, i, o, false),
        sp_calendar_entry(s, i) matches Ok((j, _)) ==> i < j,
{
    let d = i - o;
    lemma_interval_line(s, i, u, o, false);
    if let Ok((i1, _)) = sp_interval(s, i) {
        lemma_same_line_at(s, i, u, o, i1, false);
        lemma_space1_line(s, i1, u, i1 - d);
        if let Ok((i2, _)) = sp_space1(s, i1) {
            lemma_same_line_at(s, i, u, o, i2, false);
            lemma_description_line(s, i2, u, i2 - d);
            if let Ok((i3, _)) = sp_description(s, i2) {
                lemma_same_line_sub(s, i, u, o, i2, i3, false);
                assert(i3 == i2 ==> all_whitespace(s.subrange(i2, i3)));
            }
        }
    }
}

/// The line at `|x| + q` of `x + b` is the line at `q` of `b`.
pub proof fn lemma_suffix_line(x: Seq<char>, b: Seq<char>, q: int)
    requires
        0 <= q <= b.len(),
    ensures
        same_line(x + b, x.len() + q, b, q, false),
        next_stop(x + b, x.len() + q, false) == x.len() + next_stop(b, q, false),
    decreases b.len() - q,
{
    let s = x + b;
    if q < b.len() {
        assert(s[x.len() + q] == b[q]);
        if b[q] != '\n' {
            lemma_suffix_line(x, b, q + 1);
        }
    }
    lemma_next_stop(b, q, false);
    assert(s.subrange(x.len() + q, x.len() + next_stop(b, q, false)) =~= b.subrange(q, next_stop(b, q, false)));
}

/// Before a line feed that is appended, the lines of `a` stay as they are.
pub proof fn lemma_prefix_line(a: Seq<char>, y: Seq<char>, k: int)
    requires
        0 <= k <= a.len(),
        y.len() > 0,
        y[0] == '\n',
    ensures
        same_line(a + y, k, a, k, false),
        next_stop(a + y, k, false) == next_stop(a, k, false),
    decreases a.len() - k,
{
    let s = a + y;
    if k < a.len() {
        assert(s[k] == a[k]);
        if a[k] != '\n' {
            lemma_prefix_line(a, y, k + 1);
        }
    } else {
        assert(s[k] == y[0]);
    }
    lemma_next_stop(a, k, false);
    assert(s.subrange(k, next_stop(a, k, false)) =~= a.subrange(k, next_stop(a, k, false)));
}

pub proof fn lemma_run_end_suffix(x: Seq<char>, b: Seq<char>, q: int, k: CharClass)
    requires
        0 <= q <= b.len(),
    ensures
        run_end(x + b, x.len() + q, k) == x.len() + run_end(b, q, k),
    decreases b.len() - q,
{
    if q < b.len() {
        assert((x + b)[x.len() + q] == b[q]);
        if in_class(k, b[q]) {
            lemma_run_end_suffix(x, b, q + 1, k);
        }
    }
}

pub proof fn lemma_run_end_prefix(a: Seq<char>, y: Seq<char>, p: int, k: CharClass)
    requires
        0 <= p <= a.len(),
        run_end(a, p, k) < a.len(),
    ensures
        run_end(a + y, p, k) == run_end(a, p, k),
    decreases a.len() - p,
{
    assert((a + y)[p] == a[p]);
    if in_class(k, a[p]) {
        lemma_run_end_prefix(a, y, p + 1, k);
    }
}

/// Spaces, tabs and carriage returns only.
pub open spec fn blank_tail(t: Seq<char>) -> bool {
    forall|k: int| 0 <= k < t.len() ==> #[trigger] t[k] == ' ' || t[k] == '\t' || t[k] == '\r'
}

pub proof fn lemma_next_stop_char(s: Seq<char>, i: int, m: int, ws: bool)
    requires
        0 <= i <= m <= s.len(),
        forall|k: int| i <= k < m ==> !is_stop(#[trigger] s[k], ws),
        m == s.len() || is_stop(s[m], ws),
    ensures
        next_stop(s, i, ws) == m,
    decreases m - i,
{
    if i < m {
        lemma_next_stop_char(s, i + 1, m, ws);
    }
}

/// An interval followed by white space reads the same whatever comes after the end of the input.
pub proof fn lemma_interval_blank_tail(a: Seq<char>, t: Seq<char>, k: int)
    requires
        0 <= k <= a.len(),
        sp_interval(a, k) matches Ok((i1, _)) && i1 < a.len() && is_whitespace(a[i1]),
    ensures
        sp_interval(a + t, k) == sp_interval(a, k),
{
    let s = a + t;
    let i1 = sp_interval(a, k)->Ok_0.0;
    lemma_next_stop(a, k, true);
    assert(a.subrange(k, next_stop(a, k, true)) =~= a.subrange(k, next_stop(a, k, true)));
    lemma_interval_line(a, k, a, k, true);
    let n = next_stop(a, k, true);
    assert(n == i1);
    assert forall|j: int| k <= j < n implies !is_stop(#[trigger] s[j], true) by {
        assert(s[j] == a[j]);
    }
    assert(s[n] == a[n]);
    lemma_next_stop_char(s, k, n, true);
    assert(s.subrange(k, n) =~= a.subrange(k, n));
    lemma_interval_line(s, k, a, k, true);
}

/// The spans of words lie within `a` from `p`.
pub open spec fn spans_within(sp: Seq<(int, int)>, p: int, n: int) -> bool {
    forall|q: int| 0 <= q < sp.len() ==> p <= (#[trigger] sp[q]).0 <= sp[q].1 <= n
}

pub proof fn lemma_words_from_blank_tail(a: Seq<char>, t: Seq<char>, p: int)
    requires
        blank_tail(t),
        0 <= p <= a.len(),
    ensures
        sp_words_from(a + t, p) == sp_words_from(a, p),
        p <= sp_words_from(a, p).0 <= a.len(),
        spans_within(sp_words_from(a, p).1, p, a.len() as int),
    decreases a.len() - p,
{
    let s = a + t;
    lemma_run_end(a, p, CharClass::Space);
    lemma_run_end(s, p, CharClass::Space);
    let k = run_end(a, p, CharClass::Space);
    if k < a.len() {
        lemma_run_end_prefix(a, t, p, CharClass::Space);
        lemma_run_end(a, k, CharClass::NotWhitespace);
        let j = run_end(a, k, CharClass::NotWhitespace);
        if j < a.len() {
            lemma_run_end_prefix(a, t, k, CharClass::NotWhitespace);
        } else {
            assert forall|m: int| k <= m < j implies in_class(CharClass::NotWhitespace, #[trigger] s[m]) by {
                assert(s[m] == a[m]);
            }
            if j < s.len() {
                assert(s[j] == t[0]);
            }
            lemma_run_end_char(s, k, j, CharClass::NotWhitespace);
        }
        if j > k {
            lemma_words_from_blank_tail(a, t, j);
            let r = sp_words_from(a, j).1;
            assert(spans_within(seq![(k, j)] + r, p, a.len() as int)) by {
                assert forall|q: int| 0 <= q < (seq![(k, j)] + r).len() implies p <= (#[trigger] (seq![(k, j)] + r)[q]).0
                    <= (seq![(k, j)] + r)[q].1 <= a.len() by {
                    if q > 0 {
                        assert((seq![(k, j)] + r)[q] == r[q - 1]);
                    }
                }
            }
        }
    } else {
        let m = run_end(s, p, CharClass::Space);
        assert forall|x: int| p <= x < a.len() implies in_class(CharClass::Space, #[trigger] s[x]) by {
            assert(s[x] == a[x]);
        }
        assert(m >= a.len()) by {
            if m < a.len() {
                assert(in_class(CharClass::Space, s[m]));
            }
        }
        if m < s.len() {
            assert(s[m] == t[m - a.len()]);
            assert(is_whitespace(s[m]));
        }
        lemma_run_end(s, m, CharClass::NotWhitespace);
    }
}

pub proof fn lemma_description_blank_tail(a: Seq<char>, t: Seq<char>, i: int)
    requires
        blank_tail(t),
        0 <= i <= a.len(),
    ensures
        sp_description(a + t, i) == sp_description(a, i),
        sp_description(a, i) matches Ok((e, _)) && i <= e <= a.len(),
{
    reveal(sp_description);
    let s = a + t;
    lemma_run_end(a, i, CharClass::NotWhitespace);
    let j = run_end(a, i, CharClass::NotWhitespace);
    if j < a.len() {
        lemma_run_end_prefix(a, t, i, CharClass::NotWhitespace);
    } else {
        assert forall|m: int| i <= m < j implies in_class(CharClass::NotWhitespace, #[trigger] s[m]) by {
            assert(s[m] == a[m]);
        }
        if j < s.len() {
            assert(s[j] == t[0]);
        }
        lemma_run_end_char(s, i, j, CharClass::NotWhitespace);
    }
    if j > i {
        lemma_words_from_blank_tail(a, t, j);
        let sp = seq![(i, j)] + sp_words_from(a, j).1;
        assert(sp_words(s, i) == sp_words(a, i));
        assert forall|q: int| 0 <= q < sp.len() implies i <= (#[trigger] sp[q]).0 <= sp[q].1 <= a.len() by {
            if q > 0 {
                assert(sp[q] == sp_words_from(a, j).1[q - 1]);
            }
        }
        assert(span_words(s, sp) =~= span_words(a, sp)) by {
            assert forall|q: int| 0 <= q < sp.len() implies span_words(s, sp)[q] == span_words(a, sp)[q] by {
                assert(s.subrange(sp[q].0, sp[q].1) =~= a.subrange(sp[q].0, sp[q].1));
            }
        }
    } else {
        assert(span_words(s, seq![]) =~= span_words(a, seq![]));
    }
}

/// A calendar entry that parses reads the same when spaces, tabs or carriage
/// returns follow the end of the input.
pub proof fn lemma_calendar_entry_blank_tail(a: Seq<char>, t: Seq<char>, k: int)
    requires
        blank_tail(t),
        0 <= k <= a.len(),
        sp_calendar_entry(a, k) is Ok,
    ensures
        sp_calendar_entry(a + t, k) == sp_calendar_entry(a, k),
{
    let s = a + t;
    lemma_calendar_entry_line(a, k, a, k);
    let (i1, _) = sp_interval(a, k)->Ok_0;
    let (i2, _) = sp_space1(a, i1)->Ok_0;
    lemma_run_end(a, i1, CharClass::Space);
    lemma_description_blank_tail(a, t, i2);
    let (i3, _) = sp_description(a, i2)->Ok_0;
    assert(i3 == i2 ==> all_whitespace(a.subrange(i2, i3)));
    assert(i2 < a.len());
    lemma_interval_blank_tail(a, t, k);
    lemma_run_end_prefix(a, t, i1, CharClass::Space);
    assert(s.subrange(i2, i3) =~= a.subrange(i2, i3));
}

} // verus!
