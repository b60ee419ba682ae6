//! The first task-list format: tasks whose description keeps its words and
//! tags, with `key:value` pairs collected as special properties.
use vstd::prelude::*;
use crate::dates::{Date, valid_ymd, date_text, chrono_from_ymd, chrono_date_text};
use crate::entry::{strings_view, same_strings, props_within, lemma_props_within_map};
use crate::parser::props_map;
use crate::todo::task_dates;
use crate::entry::pairs_view;
use crate::error::{ErrorKind, IResult, NomErrorKind};
use crate::parser::{index_of, props_insert, key_index, keys_unique, lemma_props_insert};
use crate::scan::{SRes, PRes, SFail, SMode, Mode, Fail, rv, rv_by, serr, bounded, complete, sp_u16, p_u16,
    CharClass, run_end, lemma_run_end, scan_run, fail_error, reports, reports_by, report, trimmed, trim_range,
    trim_end_index, is_whitespace, whitespace};
use crate::text::{chars_of, string_of_range, push_char, slice_chars};
use vstd::string::StringExecFns;

verus! {

#[derive(Debug, Clone, Eq)]
pub struct TodoEntry {
    pub completed: bool,

    /// Priority of the task, it must be A-Z ascii character
    pub priority: Option<char>,
    pub completion_date: Option<Date>,
    pub creation_date: Option<Date>,

    /// Description of the task (includes tags)
    pub description: String,

    /// Special `key:value` properties, each key once, in the order in which
    /// the keys first appeared
    pub special: Vec<(String, String)>,
    pub project_tags: Vec<String>,
    pub context_tags: Vec<String>,
}

pub ghost struct TodoTxtView {
    pub completed: bool,
    pub priority: Option<char>,
    pub completion_date: Option<Date>,
    pub creation_date: Option<Date>,
    pub description: Seq<char>,
    pub special: Seq<(Seq<char>, Seq<char>)>,
    pub project_tags: Seq<Seq<char>>,
    pub context_tags: Seq<Seq<char>>,
}

impl TodoEntry {
    pub open spec fn view(&self) -> TodoTxtView {
        TodoTxtView {
            completed: self.completed,
            priority: self.priority,
            completion_date: self.completion_date,
            creation_date: self.creation_date,
            description: self.description@,
            special: pairs_view(self.special@),
            project_tags: strings_view(self.project_tags@),
            context_tags: strings_view(self.context_tags@),
        }
    }
}

/// The outcome that stands for a date with numbers that name no day, on
/// which the computation stops.
pub open spec fn invalid_date_panic(i: int) -> SFail {
    SFail { mode: SMode::Panic, pos: i, kind: ErrorKind::InvalidDate, missing_end: false }
}

/// `Y-M-D` with 16-bit numbers; numbers that name no day are not accepted
/// as input.
pub open spec fn sp_txt_date(s: Seq<char>, i: int) -> SRes<Date> {
    match sp_u16(s, i) {
        Err(e) => Err(e),
        Ok((i1, y)) => match sp_dash(s, i1) {
            Err(e) => Err(e),
            Ok(i2) => match sp_u16(s, i2) {
                Err(e) => Err(e),
                Ok((i3, m)) => match sp_dash(s, i3) {
                    Err(e) => Err(e),
                    Ok(i4) => match sp_u16(s, i4) {
                        Err(e) => Err(e),
                        Ok((i5, d)) => if valid_ymd(y as int, m as int, d as int) {
                            Ok((i5, Date { year: y as i32, month: m as u32, day: d as u32 }))
                        } else {
                            Err(invalid_date_panic(i5))
                        },
                    },
                },
            },
        },
    }
}

/// A `-`.
pub open spec fn sp_dash(s: Seq<char>, i: int) -> Result<int, SFail> {
    if 0 <= i < s.len() && s[i] == '-' {
        Ok(i + 1)
    } else {
        Err(serr(i, ErrorKind::Nom(NomErrorKind::Char)))
    }
}

/// The outcome of a parse that does not stop on a date that names no day.
pub open spec fn no_panic<T>(r: SRes<T>) -> bool {
    !(r matches Err(f) && f.mode is Panic)
}

fn p_dash(s: &Vec<char>, i: usize) -> (r: Result<usize, Fail>)
    requires
        i <= s@.len(),
    ensures
        match r {
            Ok(j) => sp_dash(s@, i as int) == Ok::<int, SFail>(j as int) && j <= s@.len(),
            Err(f) => sp_dash(s@, i as int) == Err::<int, SFail>(f@) && f.pos <= s@.len() && f.mode == Mode::Error,
        },
{
    if i < s.len() && s[i] == '-' {
        Ok(i + 1)
    } else {
        Err(fail_error(i, ErrorKind::Nom(NomErrorKind::Char)))
    }
}

pub fn p_txt_date(s: &Vec<char>, i: usize) -> (r: PRes<Date>)
    requires
        i <= s@.len(),
        no_panic(sp_txt_date(s@, i as int)),
    ensures
        rv(r) == sp_txt_date(s@, i as int),
        bounded(r, i as int, s@.len() as int),
        complete(r),
        r matches Ok((_, d)) ==> d.wf(),
{
    let (i1, y) = match p_u16(s, i) {
        Ok(x) => x,
        Err(e) => return Err(e),
    };
    let i2 = match p_dash(s, i1) {
        Ok(x) => x,
        Err(e) => return Err(e),
    };
    let (i3, m) = match p_u16(s, i2) {
        Ok(x) => x,
        Err(e) => return Err(e),
    };
    let i4 = match p_dash(s, i3) {
        Ok(x) => x,
        Err(e) => return Err(e),
    };
    let (i5, d) = match p_u16(s, i4) {
        Ok(x) => x,
        Err(e) => return Err(e),
    };
    match chrono_from_ymd(y as i32, m as u32, d as u32) {
        Some(date) => Ok((i5, date)),
        None => {
            proof { assert(false); }
            Err(fail_error(i5, ErrorKind::InvalidDate))
        },
    }
}

/// Parses a date `Y-M-D`. A date whose numbers name no day stops the parse
/// and is not accepted.
pub fn parse_date(input: &str) -> (r: IResult<'_, Date>)
    requires
        no_panic(sp_txt_date(input@, 0)),
    ensures
        reports(input@, r, sp_txt_date(input@, 0)),
{
    let s = chars_of(input);
    let n = s.len();
    let res = p_txt_date(&s, 0);
    report(input, n, res)
}

// ----- descriptions -----

/// One word of a description and the white space after it: a `+` or `@` tag
/// with its text, a word with a `:` (the whole word), or any other word
/// (the whole word). The white space must be there.
pub open spec fn sp_txt_item(s: Seq<char>, p: int) -> SRes<(char, int, int)> {
    let (kind, a, b, e) = if 0 <= p < s.len() && (s[p] == '+' || s[p] == '@') {
        (s[p], p + 1, run_end(s, p + 1, CharClass::NotWhitespace), run_end(s, p + 1, CharClass::NotWhitespace))
    } else {
        let q = run_end(s, p, CharClass::NotColonNorWhitespace);
        if 0 <= q < s.len() && s[q] == ':' {
            (':', p, run_end(s, q + 1, CharClass::NotWhitespace), run_end(s, q + 1, CharClass::NotWhitespace))
        } else {
            ('?', p, run_end(s, p, CharClass::NotWhitespace), run_end(s, p, CharClass::NotWhitespace))
        }
    };
    let m = run_end(s, e, CharClass::MultiSpace);
    if m == e {
        Err(serr(e, ErrorKind::Nom(NomErrorKind::MultiSpace)))
    } else {
        Ok((m, (kind, a, b)))
    }
}

/// Items from `p` on, until one does not parse.
pub open spec fn sp_txt_items_from(s: Seq<char>, p: int) -> Seq<(char, int, int)>
    decreases s.len() - p,
{
    if 0 <= p <= s.len() {
        match sp_txt_item(s, p) {
            Err(_) => seq![],
            // an item always consumes input and never ends past the end of it
            Ok((j, x)) => if j <= p || j > s.len() {
                seq![]
            } else {
                seq![x] + sp_txt_items_from(s, j)
            },
        }
    } else {
        seq![]
    }
}

/// The end of the items from `p` on.
pub open spec fn sp_txt_items_end(s: Seq<char>, p: int) -> int
    decreases s.len() - p,
{
    if 0 <= p <= s.len() {
        match sp_txt_item(s, p) {
            Err(_) => p,
            Ok((j, x)) => if j <= p || j > s.len() { p } else { sp_txt_items_end(s, j) },
        }
    } else {
        p
    }
}

/// What the items collect: the description before trimming, the tags and
/// the special properties.
pub ghost struct TxtCollected {
    pub raw: Seq<char>,
    pub projects: Seq<Seq<char>>,
    pub contexts: Seq<Seq<char>>,
    pub special: Seq<(Seq<char>, Seq<char>)>,
}

pub open spec fn txt_collect_item(a: TxtCollected, kind: char, text: Seq<char>) -> TxtCollected {
    if kind == '+' {
        TxtCollected { raw: a.raw + seq!['+'] + text + seq![' '], projects: a.projects.push(text), ..a }
    } else if kind == '@' {
        TxtCollected { raw: a.raw + seq!['@'] + text + seq![' '], contexts: a.contexts.push(text), ..a }
    } else if kind == ':' {
        let c = index_of(text, ':', 0);
        TxtCollected { special: props_insert(a.special, text.take(c), text.skip(c + 1)), ..a }
    } else {
        TxtCollected { raw: a.raw + text + seq![' '], ..a }
    }
}

pub open spec fn txt_collect(s: Seq<char>, items: Seq<(char, int, int)>) -> TxtCollected
    decreases items.len(),
{
    if items.len() == 0 {
        TxtCollected { raw: seq![], projects: seq![], contexts: seq![], special: seq![] }
    } else {
        let x = items.last();
        txt_collect_item(txt_collect(s, items.drop_last()), x.0, s.subrange(x.1, x.2))
    }
}

/// The description of a task from `i`: at least one item; its words other
/// than the `key:value` properties, each followed by a space, trimmed; its
/// tags; and its special properties.
pub open spec fn sp_txt_description(s: Seq<char>, i: int)
    -> SRes<(Seq<char>, Seq<Seq<char>>, Seq<Seq<char>>, Seq<(Seq<char>, Seq<char>)>)>
{
    match sp_txt_item(s, i) {
        Err(e) => Err(e),
        Ok((j, x)) => {
            let items = seq![x] + sp_txt_items_from(s, j);
            let a = txt_collect(s, items);
            Ok((sp_txt_items_end(s, j), (trimmed(a.raw), a.projects, a.contexts, a.special)))
        },
    }
}


proof fn lemma_index_of_found(w: Seq<char>, c: char, k: int, m: int)
    requires
        0 <= k <= m < w.len(),
        w[m] == c,
        forall|j: int| k <= j < m ==> #[trigger] w[j] != c,
    ensures
        index_of(w, c, k) == m,
    decreases m - k,
{
    if k < m {
        lemma_index_of_found(w, c, k + 1, m);
    }
}

fn p_txt_item(s: &Vec<char>, p: usize) -> (r: PRes<(char, usize, usize)>)
    requires
        p <= s@.len(),
    ensures
        rv_by(r, |x: (char, usize, usize)| (x.0, x.1 as int, x.2 as int)) == sp_txt_item(s@, p as int),
        bounded(r, p as int, s@.len() as int),
        complete(r),
        r matches Ok((m, (k, a, b))) ==> p < m && p <= a <= b <= m,
        r matches Ok((m, (k, a, b))) ==> (k == ':' ==> index_of(s@.subrange(a as int, b as int), ':', 0) >= 0),
        r matches Err(f) ==> f.mode == Mode::Error,
{
    let (k, a, b, e) = if p < s.len() && (s[p] == '+' || s[p] == '@') {
        let b = scan_run(s, p + 1, CharClass::NotWhitespace);
        (s[p], p + 1, b, b)
    } else {
        let q = scan_run(s, p, CharClass::NotColonNorWhitespace);
        if q < s.len() && s[q] == ':' {
            let b = scan_run(s, q + 1, CharClass::NotWhitespace);
            proof {
                lemma_run_end(s@, p as int, CharClass::NotColonNorWhitespace);
                let w = s@.subrange(p as int, b as int);
                assert forall|j: int| 0 <= j < q - p implies #[trigger] w[j] != ':' by {
                    assert(w[j] == s@[p + j]);
                    assert(in_class_nc(s@[p + j]));
                }
                assert(w[q - p] == s@[q as int]);
                lemma_index_of_found(w, ':', 0, q - p);
            }
            (':', p, b, b)
        } else {
            let e = scan_run(s, p, CharClass::NotWhitespace);
            ('?', p, e, e)
        }
    };
    let m = scan_run(s, e, CharClass::MultiSpace);
    if m == e {
        Err(fail_error(e, ErrorKind::Nom(NomErrorKind::MultiSpace)))
    } else {
        Ok((m, (k, a, b)))
    }
}

pub open spec fn in_class_nc(c: char) -> bool {
    crate::scan::in_class(CharClass::NotColonNorWhitespace, c)
}

pub open spec fn items_view(v: Seq<(char, usize, usize)>) -> Seq<(char, int, int)> {
    v.map_values(|x: (char, usize, usize)| (x.0, x.1 as int, x.2 as int))
}

fn p_txt_items(s: &Vec<char>, i: usize) -> (r: PRes<(usize, Vec<(char, usize, usize)>)>)
    requires
        i <= s@.len(),
    ensures
        match r {
            Ok((j, (e, v))) => sp_txt_item(s@, i as int) matches Ok((j0, x)) && items_view(v@) == seq![x] + sp_txt_items_from(s@, j0)
                && e == sp_txt_items_end(s@, j0) && j == e && i <= e <= s@.len()
                && forall|k: int| 0 <= k < v@.len() ==> (#[trigger] v@[k]).1 <= v@[k].2 <= s@.len()
                && (v@[k].0 == ':' ==> index_of(s@.subrange(v@[k].1 as int, v@[k].2 as int), ':', 0) >= 0),
            Err(f) => sp_txt_item(s@, i as int) == Err::<(int, (char, int, int)), SFail>(f@) && f.pos <= s@.len()
                && f.mode == Mode::Error,
        },
{
    let (j0, x0) = match p_txt_item(s, i) {
        Ok(x) => x,
        Err(e) => return Err(e),
    };
    let mut items: Vec<(char, usize, usize)> = Vec::new();
    items.push(x0);
    let mut p = j0;
    assert(items_view(items@) =~= seq![(x0.0, x0.1 as int, x0.2 as int)]);
    loop
        invariant
            i < p <= s@.len(),
            i < j0 <= p,
            sp_txt_item(s@, i as int) == Ok::<(int, (char, int, int)), SFail>((j0 as int, (x0.0, x0.1 as int, x0.2 as int))),
            seq![(x0.0, x0.1 as int, x0.2 as int)] + sp_txt_items_from(s@, j0 as int) == items_view(items@) + sp_txt_items_from(s@, p as int),
            sp_txt_items_end(s@, j0 as int) == sp_txt_items_end(s@, p as int),
            forall|k: int| 0 <= k < items@.len() ==> (#[trigger] items@[k]).1 <= items@[k].2 <= s@.len()
                && (items@[k].0 == ':' ==> index_of(s@.subrange(items@[k].1 as int, items@[k].2 as int), ':', 0) >= 0),
        decreases s@.len() - p,
    {
        match p_txt_item(s, p) {
            Err(_) => {
                assert(sp_txt_items_from(s@, p as int) =~= seq![]);
                assert(items_view(items@) + seq![] =~= items_view(items@));
                return Ok((p, (p, items)));
            },
            Ok((m, x)) => {
                let ghost before = items_view(items@);
                let ghost xv = (x.0, x.1 as int, x.2 as int);
                items.push(x);
                proof {
                    assert(items_view(items@) =~= before.push(xv));
                    assert(sp_txt_items_from(s@, p as int) == seq![xv] + sp_txt_items_from(s@, m as int));
                    assert(before + (seq![xv] + sp_txt_items_from(s@, m as int)) =~= items_view(items@) + sp_txt_items_from(s@, m as int));
                }
                p = m;
            },
        }
    }
}

fn push_chars(out: &mut Vec<char>, s: &Vec<char>, a: usize, b: usize)
    requires
        a <= b <= s@.len(),
    ensures
        final(out)@ == old(out)@ + s@.subrange(a as int, b as int),
{
    let mut k = a;
    while k < b
        invariant
            a <= k <= b <= s@.len(),
            out@ == old(out)@ + s@.subrange(a as int, k as int),
        decreases b - k,
    {
        out.push(s[k]);
        assert(s@.subrange(a as int, k + 1) =~= s@.subrange(a as int, k as int).push(s@[k as int]));
        k = k + 1;
    }
}

fn find_pair(props: &Vec<(String, String)>, key: &String) -> (q: usize)
    ensures
        q <= props@.len(),
        key_index(pairs_view(props@), key@, 0) == if q < props@.len() { q as int } else { -1 },
{
    let ghost p = pairs_view(props@);
    let mut q: usize = 0;
    while q < props.len()
        invariant
            q <= props@.len(),
            p == pairs_view(props@),
            key_index(p, key@, 0) == key_index(p, key@, q as int),
        decreases props@.len() - q,
    {
        if props[q].0 == *key {
            return q;
        }
        q = q + 1;
    }
    q
}

pub open spec fn txt_description_view(d: (String, Vec<String>, Vec<String>, Vec<(String, String)>))
    -> (Seq<char>, Seq<Seq<char>>, Seq<Seq<char>>, Seq<(Seq<char>, Seq<char>)>)
{
    (d.0@, strings_view(d.1@), strings_view(d.2@), pairs_view(d.3@))
}

pub fn p_txt_description(s: &Vec<char>, i: usize) -> (r: PRes<(String, Vec<String>, Vec<String>, Vec<(String, String)>)>)
    requires
        i <= s@.len(),
    ensures
        rv_by(r, |d: (String, Vec<String>, Vec<String>, Vec<(String, String)>)| txt_description_view(d))
            == sp_txt_description(s@, i as int),
        bounded(r, i as int, s@.len() as int),
        complete(r),
{
    let (e, (_, items)) = match p_txt_items(s, i) {
        Ok(x) => x,
        Err(f) => return Err(f),
    };
    let ghost iv = items_view(items@);
    let mut raw: Vec<char> = Vec::new();
    let mut projects: Vec<String> = Vec::new();
    let mut contexts: Vec<String> = Vec::new();
    let mut special: Vec<(String, String)> = Vec::new();
    let mut k: usize = 0;
    assert(iv.take(0) =~= seq![]);
    assert(strings_view(projects@) =~= seq![]);
    assert(strings_view(contexts@) =~= seq![]);
    assert(pairs_view(special@) =~= seq![]);
    assert(raw@ =~= seq![]);
    while k < items.len()
        invariant
            k <= items@.len(),
            iv == items_view(items@),
            forall|m: int| 0 <= m < items@.len() ==> (#[trigger] items@[m]).1 <= items@[m].2 <= s@.len()
                && (items@[m].0 == ':' ==> index_of(s@.subrange(items@[m].1 as int, items@[m].2 as int), ':', 0) >= 0),
            txt_collect(s@, iv.take(k as int)) == (TxtCollected {
                raw: raw@,
                projects: strings_view(projects@),
                contexts: strings_view(contexts@),
                special: pairs_view(special@),
            }),
        decreases items@.len() - k,
    {
        let (kind, a, b) = items[k];
        let ghost text = s@.subrange(a as int, b as int);
        let ghost before = txt_collect(s@, iv.take(k as int));
        proof {
            assert(iv.take(k + 1).drop_last() =~= iv.take(k as int));
            assert(iv.take(k + 1).last() == (kind, a as int, b as int));
        }
        if kind == '+' || kind == '@' {
            raw.push(kind);
            push_chars(&mut raw, s, a, b);
            raw.push(' ');
            let t = string_of_range(s, a, b);
            if kind == '+' {
                projects.push(t);
                proof { assert(strings_view(projects@) =~= before.projects.push(text)); }
            } else {
                contexts.push(t);
                proof { assert(strings_view(contexts@) =~= before.contexts.push(text)); }
            }
            proof { assert(raw@ =~= before.raw + seq![kind] + text + seq![' ']); }
        } else if kind == ':' {
            let c = crate::parser::find_char(s, a, b, ':');
            let key = string_of_range(s, a, c);
            let val = string_of_range(s, c + 1, b);
            proof {
                assert(text.take(c - a) =~= key@);
                assert(text.skip(c - a + 1) =~= val@);
            }
            let q = find_pair(&special, &key);
            let ghost kv = (key@, val@);
            if q < special.len() {
                special.set(q, (key, val));
                proof { assert(pairs_view(special@) =~= before.special.update(q as int, kv)); }
            } else {
                special.push((key, val));
                proof { assert(pairs_view(special@) =~= before.special.push(kv)); }
            }
        } else {
            push_chars(&mut raw, s, a, b);
            raw.push(' ');
            proof { assert(raw@ =~= before.raw + text + seq![' ']); }
        }
        k = k + 1;
    }
    proof {
        assert(iv.take(items@.len() as int) =~= iv);
    }
    let (ta, tb) = trim_range(&raw);
    let description = string_of_range(&raw, ta, tb);
    Ok((e, (description, projects, contexts, special)))
}

/// Parses the description of a task: its words each followed by white space.
pub fn parse_description(input: &str) -> (r: IResult<'_, (String, Vec<String>, Vec<String>, Vec<(String, String)>)>)
    ensures
        reports_by(input@, r, sp_txt_description(input@, 0),
            |d: (String, Vec<String>, Vec<String>, Vec<(String, String)>)| txt_description_view(d)),
{
    let s = chars_of(input);
    let n = s.len();
    let res = p_txt_description(&s, 0);
    report(input, n, res)
}


// ----- tasks -----

/// An optional date and the white space after it.
pub open spec fn sp_txt_opt_date(s: Seq<char>, i: int) -> SRes<Option<Date>> {
    match sp_txt_date(s, i) {
        Err(e) => if e.mode is Error { Ok((i, None)) } else { Err(e) },
        Ok((j, d)) => Ok((run_end(s, j, CharClass::MultiSpace), Some(d))),
    }
}

/// A task: an optional `x`, an optional priority `(A)` to `(Z)`, up to two
/// dates (placed by `task_dates`), each followed by optional white space,
/// and a description.
pub open spec fn sp_txt_entry(s: Seq<char>, i: int) -> SRes<TodoTxtView> {
    let (i1, done) = if 0 <= i < s.len() && s[i] == 'x' {
        (run_end(s, i + 1, CharClass::MultiSpace), true)
    } else {
        (i, false)
    };
    let (i2, pri) = if 0 <= i1 && i1 + 2 < s.len() && s[i1] == '(' && 'A' <= s[i1 + 1] && s[i1 + 1] <= 'Z'
        && s[i1 + 2] == ')' {
        (run_end(s, i1 + 3, CharClass::MultiSpace), Some(s[i1 + 1]))
    } else {
        (i1, None)
    };
    match sp_txt_opt_date(s, i2) {
        Err(e) => Err(e),
        Ok((i3, d1)) => match sp_txt_opt_date(s, i3) {
            Err(e) => Err(e),
            Ok((i4, d2)) => match sp_txt_description(s, i4) {
                Err(e) => Err(e),
                Ok((i5, (desc, projects, contexts, special))) => Ok((i5, TodoTxtView {
                    completed: done,
                    priority: pri,
                    completion_date: task_dates(d1, d2).0,
                    creation_date: task_dates(d1, d2).1,
                    description: desc,
                    special,
                    project_tags: projects,
                    context_tags: contexts,
                })),
            },
        },
    }
}

fn p_txt_opt_date(s: &Vec<char>, i: usize) -> (r: PRes<Option<Date>>)
    requires
        i <= s@.len(),
        no_panic(sp_txt_date(s@, i as int)),
    ensures
        rv(r) == sp_txt_opt_date(s@, i as int),
        bounded(r, i as int, s@.len() as int),
        complete(r),
        r matches Ok((_, Some(d))) ==> d.wf(),
{
    match p_txt_date(s, i) {
        Err(e) => match e.mode {
            Mode::Error => Ok((i, None)),
            _ => Err(e),
        },
        Ok((j, d)) => Ok((scan_run(s, j, CharClass::MultiSpace), Some(d))),
    }
}

fn same_priority(a: Option<char>, b: Option<char>) -> (r: bool)
    ensures
        r == (a == b),
{
    match (a, b) {
        (Some(x), Some(y)) => x == y,
        (None, None) => true,
        _ => false,
    }
}

fn same_date(a: Option<Date>, b: Option<Date>) -> (r: bool)
    ensures
        r == (a == b),
{
    match (a, b) {
        (Some(x), Some(y)) => x.year == y.year && x.month == y.month && x.day == y.day,
        (None, None) => true,
        _ => false,
    }
}

impl PartialEq for TodoEntry {
    fn eq(&self, other: &Self) -> (r: bool) {
        // special properties are compared as maps, whatever their order
        let w1 = props_within(&self.special, &other.special);
        let w2 = props_within(&other.special, &self.special);
        proof {
            lemma_props_within_map(pairs_view(self.special@), pairs_view(other.special@));
        }
        self.completed == other.completed && same_priority(self.priority, other.priority)
            && same_date(self.completion_date, other.completion_date)
            && same_date(self.creation_date, other.creation_date) && self.description == other.description
            && w1 && w2 && same_strings(&self.project_tags, &other.project_tags)
            && same_strings(&self.context_tags, &other.context_tags)
    }
}

impl vstd::std_specs::cmp::PartialEqSpecImpl for TodoEntry {
    open spec fn obeys_eq_spec() -> bool {
        true
    }

    open spec fn eq_spec(&self, other: &Self) -> bool {
        &&& self.completed == other.completed
        &&& self.priority == other.priority
        &&& self.completion_date == other.completion_date
        &&& self.creation_date == other.creation_date
        &&& self.description@ == other.description@
        &&& props_map(pairs_view(self.special@)) == props_map(pairs_view(other.special@))
        &&& strings_view(self.project_tags@) == strings_view(other.project_tags@)
        &&& strings_view(self.context_tags@) == strings_view(other.context_tags@)
    }
}

pub open spec fn txt_entry_view(e: TodoEntry) -> TodoTxtView {
    e@
}

pub fn p_txt_entry(s: &Vec<char>, i: usize) -> (r: PRes<TodoEntry>)
    requires
        i <= s@.len(),
        no_panic(sp_txt_entry(s@, i as int)),
    ensures
        rv_by(r, |e: TodoEntry| txt_entry_view(e)) == sp_txt_entry(s@, i as int),
        bounded(r, i as int, s@.len() as int),
        complete(r),
        r matches Ok((_, e)) ==> (e.completion_date matches Some(d) ==> d.wf()) && (e.creation_date matches Some(d) ==> d.wf()),
{
    let (i1, completed) = if i < s.len() && s[i] == 'x' {
        (scan_run(s, i + 1, CharClass::MultiSpace), true)
    } else {
        (i, false)
    };
    let (i2, priority) = if s.len() >= 3 && i1 < s.len() - 2 && s[i1] == '(' && 'A' <= s[i1 + 1] && s[i1 + 1] <= 'Z' && s[i1 + 2] == ')' {
        (scan_run(s, i1 + 3, CharClass::MultiSpace), Some(s[i1 + 1]))
    } else {
        (i1, None)
    };
    let (i3, d1) = match p_txt_opt_date(s, i2) {
        Ok(x) => x,
        Err(e) => return Err(e),
    };
    let (i4, d2) = match p_txt_opt_date(s, i3) {
        Ok(x) => x,
        Err(e) => return Err(e),
    };
    let (completion_date, creation_date) = match d2 {
        Some(c) => (d1, Some(c)),
        None => (None, d1),
    };
    let (i5, (description, project_tags, context_tags, special)) = match p_txt_description(s, i4) {
        Ok(x) => x,
        Err(e) => return Err(e),
    };
    Ok((i5, TodoEntry {
        completed,
        priority,
        completion_date,
        creation_date,
        description,
        special,
        project_tags,
        context_tags,
    }))
}

/// Parses a task. Dates whose numbers name no day stop the parse and are
/// not accepted.
pub fn parse_entry(input: &str) -> (r: IResult<'_, TodoEntry>)
    requires
        no_panic(sp_txt_entry(input@, 0)),
    ensures
        reports_by(input@, r, sp_txt_entry(input@, 0), |e: TodoEntry| txt_entry_view(e)),
{
    let s = chars_of(input);
    let n = s.len();
    let res = p_txt_entry(&s, 0);
    report(input, n, res)
}

/// A task as text before trailing white space is removed.
pub open spec fn txt_raw_text(e: TodoTxtView) -> Seq<char> {
    txt_marks(e) + e.description + seq![' '] + special_text(e.special)
}

/// The completion mark, priority and dates of a task, each followed by a space.
pub open spec fn txt_marks(e: TodoTxtView) -> Seq<char> {
    (if e.completed { seq!['x', ' '] } else { seq![] })
    + (match e.priority { Some(p) => seq!['(', p, ')', ' '], None => seq![] })
    + (match e.creation_date {
        Some(c) => (match e.completion_date {
            Some(d) => date_text(d) + seq![' '],
            None => seq![],
        }) + date_text(c) + seq![' '],
        None => seq![],
    })
}

/// The special properties as `key:value`, each followed by a space.
pub open spec fn special_text(p: Seq<(Seq<char>, Seq<char>)>) -> Seq<char>
    decreases p.len(),
{
    if p.len() == 0 {
        seq![]
    } else {
        special_text(p.drop_last()) + p.last().0 + seq![':'] + p.last().1 + seq![' ']
    }
}

/// A task as text, without trailing white space.
pub open spec fn txt_text(e: TodoTxtView) -> Seq<char> {
    let r = txt_raw_text(e);
    r.subrange(0, trim_end_index(r, r.len() as int))
}

impl TodoEntry {
    /// Writes the task: its marks and dates, its description and its special
    /// properties, without trailing white space.
    pub fn to_string(&self) -> (r: String)
        requires
            self.completion_date matches Some(d) ==> d.wf(),
            self.creation_date matches Some(d) ==> d.wf(),
        ensures
            r@ == txt_text(self@),
    {
        let out = self.raw_text();
        // remove any leftover whitespace
        let chars = chars_of(out.as_str());
        let mut end = chars.len();
        while end > 0 && whitespace(chars[end - 1])
            invariant
                end <= chars@.len(),
                chars@ == txt_raw_text(self@),
                trim_end_index(chars@, end as int) == trim_end_index(chars@, chars@.len() as int),
            decreases end,
        {
            end = end - 1;
        }
        string_of_range(&chars, 0, end)
    }

    fn raw_text(&self) -> (r: String)
        requires
            self.completion_date matches Some(d) ==> d.wf(),
            self.creation_date matches Some(d) ==> d.wf(),
        ensures
            r@ == txt_raw_text(self@),
    {
        let mut out = self.marks();
        let ghost c = out@;
        out.append(self.description.as_str());
        push_char(&mut out, ' ');
        let ghost d = out@;
        let mut k: usize = 0;
        let ghost sp = pairs_view(self.special@);
        assert(sp.take(0) =~= seq![]);
        while k < self.special.len()
            invariant
                k <= self.special@.len(),
                sp == pairs_view(self.special@),
                out@ == d + special_text(sp.take(k as int)),
            decreases self.special@.len() - k,
        {
            out.append(self.special[k].0.as_str());
            push_char(&mut out, ':');
            out.append(self.special[k].1.as_str());
            push_char(&mut out, ' ');
            proof {
                assert(sp.take(k + 1).drop_last() =~= sp.take(k as int));
                assert(sp.take(k + 1).last() == sp[k as int]);
            }
            k = k + 1;
        }
        proof {
            assert(sp.take(self.special@.len() as int) =~= sp);
            assert(out@ =~= txt_raw_text(self@));
        }
        out
    }

    fn marks(&self) -> (r: String)
        requires
            self.completion_date matches Some(d) ==> d.wf(),
            self.creation_date matches Some(d) ==> d.wf(),
        ensures
            r@ == txt_marks(self@),
    {
        let mut out = String::new();
        if self.completed {
            push_char(&mut out, 'x');
            push_char(&mut out, ' ');
        }
        let ghost a = out@;
        if let Some(p) = self.priority {
            push_char(&mut out, '(');
            push_char(&mut out, p);
            push_char(&mut out, ')');
            push_char(&mut out, ' ');
        }
        let ghost b = out@;
        // creation date has to be present if completion date is
        if let Some(c) = self.creation_date {
            if let Some(d) = self.completion_date {
                let t = chrono_date_text(d);
                out.append(t.as_str());
                push_char(&mut out, ' ');
            }
            let t = chrono_date_text(c);
            out.append(t.as_str());
            push_char(&mut out, ' ');
        }
        proof {
            let v = self@;
            assert(a =~= (if v.completed { seq!['x', ' '] } else { seq![] }));
            assert(b =~= a + (match v.priority { Some(p) => seq!['(', p, ')', ' '], None => seq![] }));
            assert(out@ =~= txt_marks(v));
        }
        out
    }
}


/// The special properties that a description collects have each key once.
pub proof fn lemma_txt_special_keys_unique(s: Seq<char>, items: Seq<(char, int, int)>)
    ensures
        keys_unique(txt_collect(s, items).special),
    decreases items.len(),
{
    if items.len() > 0 {
        lemma_txt_special_keys_unique(s, items.drop_last());
        let a = txt_collect(s, items.drop_last());
        let x = items.last();
        let text = s.subrange(x.1, x.2);
        if x.0 == ':' {
            let c = index_of(text, ':', 0);
            lemma_props_insert(a.special, text.take(c), text.skip(c + 1));
        }
    }
}


/// The priority of a parsed task is an upper-case ASCII letter.
pub proof fn lemma_txt_priority_letter(s: Seq<char>, i: int)
    ensures
        sp_txt_entry(s, i) matches Ok((_, e)) ==> (e.priority matches Some(c) ==> 'A' <= c && c <= 'Z'),
{
}

/// A parsed task has a creation date whenever it has a completion date.
pub proof fn lemma_txt_completion_needs_creation(s: Seq<char>, i: int)
    ensures
        sp_txt_entry(s, i) matches Ok((_, e)) ==> (e.completion_date is Some ==> e.creation_date is Some),
{
}

/// An optional date that is not there consumes nothing.
pub proof fn lemma_txt_absent_date_consumes_nothing(s: Seq<char>, i: int)
    ensures
        sp_txt_opt_date(s, i) matches Ok((j, None)) ==> j == i,
{
}

/// The length of special properties written as `key:value` and a space each.
pub open spec fn pairs_len(p: Seq<(Seq<char>, Seq<char>)>) -> int
    decreases p.len(),
{
    if p.len() == 0 {
        0
    } else {
        pairs_len(p.drop_last()) + p.last().0.len() + p.last().1.len() + 2
    }
}

/// The written special properties are each pair in turn: pair `q` is written
/// as `key:value` and a space right after the pairs before it, and nothing
/// else is written.
pub proof fn lemma_special_text_pairs(p: Seq<(Seq<char>, Seq<char>)>)
    ensures
        special_text(p).len() == pairs_len(p),
        forall|q: int| 0 <= q < p.len() ==> special_text(p).subrange(pairs_len(#[trigger] p.take(q)),
            pairs_len(p.take(q)) + p[q].0.len() + p[q].1.len() + 2) == p[q].0 + seq![':'] + p[q].1 + seq![' '],
    decreases p.len(),
{
    if p.len() > 0 {
        let a = p.drop_last();
        lemma_special_text_pairs(a);
        let t = special_text(p);
        let sa = special_text(a);
        let x = p.last().0 + seq![':'] + p.last().1 + seq![' '];
        assert(t =~= sa + x);
        assert forall|q: int| 0 <= q < p.len() implies t.subrange(pairs_len(#[trigger] p.take(q)),
            pairs_len(p.take(q)) + p[q].0.len() + p[q].1.len() + 2) == p[q].0 + seq![':'] + p[q].1 + seq![' '] by {
            if q < a.len() {
                assert(p.take(q) =~= a.take(q));
                assert(a[q] == p[q]);
                let o = pairs_len(a.take(q));
                let l = p[q].0.len() + p[q].1.len() + 2;
                assert(special_text(a).subrange(o, o + l) == p[q].0 + seq![':'] + p[q].1 + seq![' ']);
                assert(0 <= o && o + l <= special_text(a).len()) by {
                    lemma_pairs_len_prefix(a, q);
                }
                assert forall|j: int| 0 <= j < l implies #[trigger] t.subrange(o, o + l)[j] == sa.subrange(o, o + l)[j] by {
                    assert((sa + x)[o + j] == sa[o + j]);
                }
                assert(t.subrange(o, o + l) =~= sa.subrange(o, o + l));
            } else {
                assert(p.take(q) =~= a);
                assert(t.subrange(pairs_len(a), pairs_len(a) + p[q].0.len() + p[q].1.len() + 2)
                    =~= p[q].0 + seq![':'] + p[q].1 + seq![' ']);
            }
        }
    }
}

proof fn lemma_pairs_len_nonneg(p: Seq<(Seq<char>, Seq<char>)>)
    ensures
        pairs_len(p) >= 0,
    decreases p.len(),
{
    if p.len() > 0 {
        lemma_pairs_len_nonneg(p.drop_last());
    }
}

proof fn lemma_pairs_len_prefix(p: Seq<(Seq<char>, Seq<char>)>, q: int)
    requires
        0 <= q < p.len(),
    ensures
        0 <= pairs_len(p.take(q)),
        pairs_len(p.take(q)) + p[q].0.len() + p[q].1.len() + 2 <= pairs_len(p),
    decreases p.len(),
{
    lemma_pairs_len_nonneg(p.take(q));
    let a = p.drop_last();
    if q < a.len() {
        assert(p.take(q) =~= a.take(q));
        lemma_pairs_len_prefix(a, q);
    } else {
        assert(p.take(q) =~= a);
    }
}

proof fn lemma_trim_end_at_least(r: Seq<char>, k: int, m: int)
    requires
        0 < m <= k <= r.len(),
        !is_whitespace(r[m - 1]),
    ensures
        trim_end_index(r, k) >= m,
    decreases k,
{
    if k > m && is_whitespace(r[k - 1]) {
        lemma_trim_end_at_least(r, k - 1, m);
    }
}

/// Every special property appears in the written task as `key:value`, after
/// the marks, the description and the properties before it; the trailing
/// white space that is removed never cuts into it unless its value ends in
/// white space.
pub proof fn lemma_txt_text_has_special(e: TodoTxtView, q: int)
    requires
        0 <= q < e.special.len(),
    ensures
        ({
            let off = txt_marks(e).len() + e.description.len() + 1 + pairs_len(e.special.take(q));
            let (k, v) = e.special[q];
            &&& txt_raw_text(e).subrange(off, off + k.len() + v.len() + 2) == k + seq![':'] + v + seq![' ']
            &&& (v.len() == 0 || !is_whitespace(v.last())) ==>
                txt_text(e).subrange(off, off + k.len() + v.len() + 1) == k + seq![':'] + v
        }),
{
    let p = e.special;
    lemma_special_text_pairs(p);
    lemma_pairs_len_prefix(p, q);
    let pre = txt_marks(e) + e.description + seq![' '];
    let r = txt_raw_text(e);
    assert(r =~= pre + special_text(p));
    let o = pairs_len(p.take(q));
    let off = pre.len() + o;
    let k = p[q].0;
    let v = p[q].1;
    let l = k.len() + v.len() + 2;
    let seg = k + seq![':'] + v + seq![' '];
    let st = special_text(p);
    assert(st.subrange(o, o + l) == seg);
    assert forall|j: int| 0 <= j < l implies #[trigger] r.subrange(off, off + l)[j] == seg[j] by {
        assert(r[off + j] == st[o + j]);
        assert(st[o + j] == st.subrange(o, o + l)[j]);
    }
    assert(r.subrange(off, off + l) =~= seg);
    if v.len() == 0 || !is_whitespace(v.last()) {
        let m = off + l - 1;
        assert(r[m - 1] == r.subrange(off, off + l)[l - 2]);
        assert(seg[l - 2] == (if v.len() == 0 { ':' } else { v.last() }));
        lemma_trim_end_at_least(r, r.len() as int, m);
        let t = txt_text(e);
        crate::scan::lemma_trim_end_index(r, r.len() as int);
        assert forall|j: int| 0 <= j < l - 1 implies #[trigger] t.subrange(off, m)[j] == (k + seq![':'] + v)[j] by {
            assert(t[off + j] == r[off + j]);
            assert(r[off + j] == r.subrange(off, off + l)[j]);
            assert(seg[j] == (k + seq![':'] + v)[j]);
        }
        assert(t.subrange(off, m) =~= (k + seq![':'] + v));
    }
}

/// A special property is split at the first colon of its word: no key that
/// a description collects holds a colon.
pub proof fn lemma_txt_special_keys_without_colon(s: Seq<char>, items: Seq<(char, int, int)>)
    requires
        forall|q: int| 0 <= q < items.len() && (#[trigger] items[q]).0 == ':' ==>
            s.subrange(items[q].1, items[q].2).contains(':'),
    ensures
        forall|q: int| 0 <= q < txt_collect(s, items).special.len()
            ==> !(#[trigger] txt_collect(s, items).special[q]).0.contains(':'),
    decreases items.len(),
{
    if items.len() > 0 {
        let init = items.drop_last();
        assert forall|q: int| 0 <= q < init.len() && (#[trigger] init[q]).0 == ':' implies
            s.subrange(init[q].1, init[q].2).contains(':') by {
            assert(init[q] == items[q]);
        }
        lemma_txt_special_keys_without_colon(s, init);
        let a = txt_collect(s, init);
        let x = items.last();
        if x.0 == ':' {
            let text = s.subrange(x.1, x.2);
            crate::parser::lemma_index_of(text, ':', 0);
            let c = index_of(text, ':', 0);
            assert(c >= 0) by {
                let j = choose|j: int| 0 <= j < text.len() && text[j] == ':';
            }
            let k = text.take(c);
            assert(!k.contains(':')) by {
                if k.contains(':') {
                    let j = choose|j: int| 0 <= j < k.len() && k[j] == ':';
                    assert(text[j] == k[j]);
                }
            }
            let p = a.special;
            let i = key_index(p, k, 0);
            crate::parser::lemma_key_index(p, k, 0);
            let r = props_insert(p, k, text.skip(c + 1));
            assert forall|q: int| 0 <= q < r.len() implies !(#[trigger] r[q]).0.contains(':') by {
                if i >= 0 {
                    if q != i {
                        assert(r[q] == p[q]);
                    }
                } else if q < p.len() {
                    assert(r[q] == p[q]);
                }
            }
        }
    }
}

} // verus!
