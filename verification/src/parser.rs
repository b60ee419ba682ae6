//! Descriptions: words, `+project` and `@context` tags and `key:value` properties.
use vstd::prelude::*;
use crate::entry::{EntryMetadata, MetadataView, metadata_opt_view, strings_view, pairs_view};
use crate::error::IResult;
use crate::scan::{SRes, PRes, CharClass, run_end, lemma_run_end, sp_space0, sp_word, p_space0, p_word,
    reports_by, rv_by, report, bounded};
use crate::text::{chars_of, string_of_range, push_char, push_range};

verus! {

/// Words separated by spaces and tabs, from position `p` on, each after its
/// separator; stops before a separator that is not followed by a word.
pub open spec fn sp_words_from(s: Seq<char>, p: int) -> (int, Seq<(int, int)>)
    decreases s.len() - p,
{
    if 0 <= p <= s.len() {
        let k = sp_space0(s, p);
        match sp_word(s, k) {
            Err(_) => (p, seq![]),
            Ok((j, _)) => {
                proof {
                    lemma_run_end(s, p, CharClass::Space);
                    lemma_run_end(s, k, CharClass::NotWhitespace);
                }
                let (e, rest) = sp_words_from(s, j);
                (e, seq![(k, j)] + rest)
            },
        }
    } else {
        (p, seq![])
    }
}

/// The words of a description that starts at `i`: the end of the last word
/// and where each word starts and ends. Words are runs of characters that are
/// not white space, separated by spaces and tabs.
pub open spec fn sp_words(s: Seq<char>, i: int) -> (int, Seq<(int, int)>) {
    match sp_word(s, i) {
        Err(_) => (i, seq![]),
        Ok((j, _)) => {
            let (e, rest) = sp_words_from(s, j);
            (e, seq![(i, j)] + rest)
        },
    }
}

/// What a word of a description stands for.
pub ghost enum Word {
    Project(Seq<char>),
    Context(Seq<char>),
    Property(Seq<char>, Seq<char>),
    Text(Seq<char>),
}

/// Position of the first `c` in `w` at or after `k`, or -1.
pub open spec fn index_of(w: Seq<char>, c: char, k: int) -> int
    decreases w.len() - k,
{
    if k < 0 || k >= w.len() {
        -1
    } else if w[k] == c {
        k
    } else {
        index_of(w, c, k + 1)
    }
}

/// `+name` is a project, `@name` a context, `key:value` with both sides
/// non-empty (split at the first `:`) a property, anything else text.
pub open spec fn classify(w: Seq<char>) -> Word {
    if w.len() > 0 && w[0] == '+' {
        Word::Project(w.drop_first())
    } else if w.len() > 0 && w[0] == '@' {
        Word::Context(w.drop_first())
    } else {
        let c = index_of(w, ':', 0);
        if c > 0 && c + 1 < w.len() {
            Word::Property(w.take(c), w.skip(c + 1))
        } else {
            Word::Text(w)
        }
    }
}

/// Position of the pair with key `k` in `p` at or after `from`, or -1.
pub open spec fn key_index(p: Seq<(Seq<char>, Seq<char>)>, k: Seq<char>, from: int) -> int
    decreases p.len() - from,
{
    if from < 0 || from >= p.len() {
        -1
    } else if p[from].0 == k {
        from
    } else {
        key_index(p, k, from + 1)
    }
}

/// Sets the value of key `k`: replaces it where the key is present, else
/// appends the pair.
pub open spec fn props_insert(p: Seq<(Seq<char>, Seq<char>)>, k: Seq<char>, v: Seq<char>) -> Seq<(Seq<char>, Seq<char>)> {
    let i = key_index(p, k, 0);
    if i >= 0 { p.update(i, (k, v)) } else { p.push((k, v)) }
}

/// What the words read so far have collected.
pub ghost struct Collected {
    pub words: Seq<Seq<char>>,
    pub projects: Seq<Seq<char>>,
    pub contexts: Seq<Seq<char>>,
    pub properties: Seq<(Seq<char>, Seq<char>)>,
}

pub open spec fn push_nonempty(ws: Seq<Seq<char>>, w: Seq<char>) -> Seq<Seq<char>> {
    if w.len() > 0 { ws.push(w) } else { ws }
}

pub open spec fn collect_word(a: Collected, w: Seq<char>) -> Collected {
    match classify(w) {
        Word::Project(x) => Collected { words: push_nonempty(a.words, x), projects: a.projects.push(x), ..a },
        Word::Context(x) => Collected { words: push_nonempty(a.words, x), contexts: a.contexts.push(x), ..a },
        Word::Property(k, v) => Collected { properties: props_insert(a.properties, k, v), ..a },
        Word::Text(x) => Collected { words: push_nonempty(a.words, x), ..a },
    }
}

pub open spec fn collect(ws: Seq<Seq<char>>) -> Collected
    decreases ws.len(),
{
    if ws.len() == 0 {
        Collected { words: seq![], projects: seq![], contexts: seq![], properties: seq![] }
    } else {
        collect_word(collect(ws.drop_last()), ws.last())
    }
}

/// The words joined by single spaces.
pub open spec fn join_words(ws: Seq<Seq<char>>) -> Seq<char>
    decreases ws.len(),
{
    if ws.len() == 0 {
        seq![]
    } else if ws.len() == 1 {
        ws[0]
    } else {
        join_words(ws.drop_last()) + seq![' '] + ws.last()
    }
}

pub open spec fn span_words(s: Seq<char>, spans: Seq<(int, int)>) -> Seq<Seq<char>> {
    spans.map_values(|sp: (int, int)| s.subrange(sp.0, sp.1))
}

/// The metadata of a description: its text words without tag prefixes
/// joined by spaces, its tags in order, and its properties; `None` when it
/// has no tag and no property.
pub open spec fn metadata_of(ws: Seq<Seq<char>>) -> Option<MetadataView> {
    let a = collect(ws);
    if a.projects.len() == 0 && a.contexts.len() == 0 && a.properties.len() == 0 {
        None
    } else {
        Some(MetadataView {
            description: join_words(a.words),
            projects: a.projects,
            contexts: a.contexts,
            properties: a.properties,
        })
    }
}

/// A description from `i`: never fails, consumes its words.
#[verifier::opaque]
pub open spec fn sp_description(s: Seq<char>, i: int) -> SRes<Option<MetadataView>> {
    let (e, spans) = sp_words(s, i);
    Ok((e, metadata_of(span_words(s, spans))))
}

} // verus!

verus! {

pub open spec fn spans_int(v: Seq<(usize, usize)>) -> Seq<(int, int)> {
    v.map_values(|p: (usize, usize)| (p.0 as int, p.1 as int))
}

pub fn p_words(s: &Vec<char>, i: usize) -> (r: (usize, Vec<(usize, usize)>))
    requires
        i <= s@.len(),
    ensures
        (r.0 as int, spans_int(r.1@)) == sp_words(s@, i as int),
        i <= r.0 <= s@.len(),
        forall|k: int| 0 <= k < r.1@.len() ==> i <= (#[trigger] r.1@[k]).0 < r.1@[k].1 <= r.0,
{
    let mut spans: Vec<(usize, usize)> = Vec::new();
    let j0 = match p_word(s, i) {
        Err(_) => {
            assert(spans_int(spans@) =~= seq![]);
            return (i, spans);
        },
        Ok((j, _)) => j,
    };
    proof { lemma_run_end(s@, i as int, CharClass::NotWhitespace); }
    spans.push((i, j0));
    let mut p = j0;
    assert(spans_int(spans@) =~= seq![(i as int, j0 as int)]);
    loop
        invariant
            i < p <= s@.len(),
            sp_words(s@, i as int) == ({
                let (e, rest) = sp_words_from(s@, p as int);
                (e, spans_int(spans@) + rest)
            }),
            forall|k: int| 0 <= k < spans@.len() ==> i <= (#[trigger] spans@[k]).0 < spans@[k].1 <= p,
        decreases s@.len() - p,
    {
        let k = p_space0(s, p);
        match p_word(s, k) {
            Err(_) => {
                assert(spans_int(spans@) + seq![] =~= spans_int(spans@));
                return (p, spans);
            },
            Ok((j, _)) => {
                proof {
                    lemma_run_end(s@, k as int, CharClass::NotWhitespace);
                    let (e, rest) = sp_words_from(s@, j as int);
                    assert(spans_int(spans@.push((k, j))) =~= spans_int(spans@) + seq![(k as int, j as int)]);
                    assert(spans_int(spans@) + (seq![(k as int, j as int)] + rest)
                        =~= spans_int(spans@.push((k, j))) + rest);
                }
                spans.push((k, j));
                p = j;
            },
        }
    }
}

/// The first position of `ch` from `a` up to `b`, or `b`.
pub(crate) fn find_char(s: &Vec<char>, a: usize, b: usize, ch: char) -> (c: usize)
    requires
        a <= b <= s@.len(),
    ensures
        a <= c <= b,
        index_of(s@.subrange(a as int, b as int), ch, 0) == if c < b { c - a } else { -1 },
{
    let ghost w = s@.subrange(a as int, b as int);
    let mut c = a;
    while c < b && s[c] != ch
        invariant
            a <= c <= b <= s@.len(),
            w == s@.subrange(a as int, b as int),
            index_of(w, ch, 0) == index_of(w, ch, c - a),
        decreases b - c,
    {
        assert(w[c - a] == s@[c as int]);
        c = c + 1;
    }
    if c < b {
        assert(w[c - a] == s@[c as int]);
    }
    c
}

pub(crate) fn find_key(props: &Vec<(String, String)>, key: &String) -> (q: usize)
    ensures
        q <= props@.len(),
        key_index(pairs_view(props@), key@, 0) == if q < props@.len() { q as int } else { -1 },
{
    let ghost p = pairs_view(props@);
    let mut q: usize = 0;
    while q < props.len()
        invariant
            q <= props@.len(),
            p == pairs_view(props@),
            key_index(p, key@, 0) == key_index(p, key@, q as int),
        decreases props@.len() - q,
    {
        if props[q].0 == *key {
            return q;
        }
        q = q + 1;
    }
    q
}

proof fn lemma_join_nonempty(ws: Seq<Seq<char>>)
    requires
        ws.len() > 0,
        forall|k: int| 0 <= k < ws.len() ==> (#[trigger] ws[k]).len() > 0,
    ensures
        join_words(ws).len() > 0,
    decreases ws.len(),
{
    if ws.len() > 1 {
        lemma_join_nonempty(ws.drop_last());
    }
}

/// Appends a word to a description that holds the words `ws` joined by spaces.
fn push_word(desc: &mut String, s: &Vec<char>, a: usize, b: usize, Ghost(ws): Ghost<Seq<Seq<char>>>)
    requires
        a < b <= s@.len(),
        old(desc)@ == join_words(ws),
        forall|k: int| 0 <= k < ws.len() ==> (#[trigger] ws[k]).len() > 0,
    ensures
        final(desc)@ == join_words(ws.push(s@.subrange(a as int, b as int))),
{
    let ghost w = s@.subrange(a as int, b as int);
    proof {
        if ws.len() > 0 {
            lemma_join_nonempty(ws);
            assert(ws.push(w).drop_last() =~= ws);
        } else {
            assert(join_words(ws.push(w)) =~= w);
        }
    }
    let empty = desc.as_str().is_empty();
    if !empty {
        push_char(desc, ' ');
    }
    push_range(desc, s, a, b);
    proof {
        if ws.len() == 0 {
            assert(desc@ =~= w);
        } else {
            assert(desc@ =~= join_words(ws) + seq![' '] + w);
        }
    }
}


/// Every collected word is non-empty.
pub open spec fn words_nonempty(ws: Seq<Seq<char>>) -> bool {
    forall|k: int| 0 <= k < ws.len() ==> (#[trigger] ws[k]).len() > 0
}

pub fn p_description(s: &Vec<char>, i: usize) -> (r: PRes<Option<EntryMetadata>>)
    requires
        i <= s@.len(),
    ensures
        rv_by(r, |m: Option<EntryMetadata>| metadata_opt_view(m)) == sp_description(s@, i as int),
        bounded(r, i as int, s@.len() as int),
        r is Ok,
        r matches Ok((j, _)) ==> j == sp_words(s@, i as int).0,
{
    reveal(sp_description);
    let (e, spans) = p_words(s, i);
    let ghost ws = span_words(s@, spans_int(spans@));
    let mut desc = String::new();
    let mut projects: Vec<String> = Vec::new();
    let mut contexts: Vec<String> = Vec::new();
    let mut properties: Vec<(String, String)> = Vec::new();
    let ghost mut words: Seq<Seq<char>> = seq![];
    let mut idx: usize = 0;
    assert(ws.take(0) =~= seq![]);
    assert(strings_view(projects@) =~= seq![]);
    assert(strings_view(contexts@) =~= seq![]);
    assert(pairs_view(properties@) =~= seq![]);
    while idx < spans.len()
        invariant
            idx <= spans@.len(),
            ws == span_words(s@, spans_int(spans@)),
            forall|k: int| 0 <= k < spans@.len() ==> i <= (#[trigger] spans@[k]).0 < spans@[k].1 <= e,
            e <= s@.len(),
            collect(ws.take(idx as int)) == (Collected {
                words,
                projects: strings_view(projects@),
                contexts: strings_view(contexts@),
                properties: pairs_view(properties@),
            }),
            desc@ == join_words(words),
            words_nonempty(words),
        decreases spans@.len() - idx,
    {
        let (a, b) = spans[idx];
        assert(spans@[idx as int].0 < spans@[idx as int].1);
        let ghost w = s@.subrange(a as int, b as int);
        let ghost before = collect(ws.take(idx as int));
        proof {
            assert(ws[idx as int] == w);
            assert(ws.take(idx + 1).drop_last() =~= ws.take(idx as int));
            assert(ws.take(idx + 1).last() == w);
            assert(w[0] == s@[a as int]);
        }
        if s[a] == '+' || s[a] == '@' {
            let x = string_of_range(s, a + 1, b);
            proof { assert(w.drop_first() =~= x@); }
            if a + 1 < b {
                push_word(&mut desc, s, a + 1, b, Ghost(words));
                proof { words = words.push(x@); }
            }
            if s[a] == '+' {
                projects.push(x);
                proof { assert(strings_view(projects@) =~= before.projects.push(x@)); }
            } else {
                contexts.push(x);
                proof { assert(strings_view(contexts@) =~= before.contexts.push(x@)); }
            }
        } else {
            let c = find_char(s, a, b, ':');
            if c < b && c > a && c + 1 < b {
                let key = string_of_range(s, a, c);
                let val = string_of_range(s, c + 1, b);
                proof {
                    assert(w.take(c - a) =~= key@);
                    assert(w.skip(c - a + 1) =~= val@);
                }
                let q = find_key(&properties, &key);
                let ghost kv = (key@, val@);
                if q < properties.len() {
                    properties.set(q, (key, val));
                    proof { assert(pairs_view(properties@) =~= before.properties.update(q as int, kv)); }
                } else {
                    properties.push((key, val));
                    proof { assert(pairs_view(properties@) =~= before.properties.push(kv)); }
                }
            } else {
                push_word(&mut desc, s, a, b, Ghost(words));
                proof { words = words.push(w); }
            }
        }
        idx = idx + 1;
    }
    proof {
        assert(ws.take(spans@.len() as int) =~= ws);
    }
    if projects.len() == 0 && contexts.len() == 0 && properties.len() == 0 {
        Ok((e, None))
    } else {
        Ok((e, Some(EntryMetadata { description: desc, projects, contexts, properties })))
    }
}

/// Parse description of an entry: its words and, when it has tags or
/// properties, its metadata.
pub fn parse_description(input: &str) -> (r: IResult<'_, Option<EntryMetadata>>)
    ensures
        reports_by(input@, r, sp_description(input@, 0), |m: Option<EntryMetadata>| metadata_opt_view(m)),
{
    let s = chars_of(input);
    let n = s.len();
    let res = p_description(&s, 0);
    report(input, n, res)
}


/// The words of a description start with one that is not white space, or
/// there are none.
pub proof fn lemma_words_start(s: Seq<char>, i: int)
    requires
        0 <= i <= s.len(),
    ensures
        sp_words(s, i).0 == i || (i < sp_words(s, i).0 && i < s.len() && !crate::scan::is_whitespace(s[i])),
        i <= sp_words(s, i).0 <= s.len(),
{
    lemma_run_end(s, i, CharClass::NotWhitespace);
    match sp_word(s, i) {
        Err(_) => {},
        Ok((j, _)) => {
            lemma_words_from_bounds(s, j);
        },
    }
}

proof fn lemma_words_from_bounds(s: Seq<char>, p: int)
    requires
        0 <= p <= s.len(),
    ensures
        p <= sp_words_from(s, p).0 <= s.len(),
    decreases s.len() - p,
{
    let k = sp_space0(s, p);
    lemma_run_end(s, p, CharClass::Space);
    lemma_run_end(s, k, CharClass::NotWhitespace);
    match sp_word(s, k) {
        Err(_) => {},
        Ok((j, _)) => {
            lemma_words_from_bounds(s, j);
        },
    }
}


/// Metadata is only returned when the description has a tag or a property.
pub proof fn lemma_metadata_not_empty(ws: Seq<Seq<char>>)
    ensures
        metadata_of(ws) matches Some(m) ==> m.projects.len() > 0 || m.contexts.len() > 0 || m.properties.len() > 0,
        metadata_of(ws) is None ==> collect(ws).projects.len() == 0 && collect(ws).contexts.len() == 0
            && collect(ws).properties.len() == 0,
{
}

/// No key occurs twice.
pub open spec fn keys_unique(p: Seq<(Seq<char>, Seq<char>)>) -> bool {
    forall|i: int, j: int| 0 <= i < j < p.len() ==> #[trigger] p[i].0 != #[trigger] p[j].0
}

/// The properties as a map from key to value.
pub open spec fn props_map(p: Seq<(Seq<char>, Seq<char>)>) -> Map<Seq<char>, Seq<char>> {
    Map::new(|k: Seq<char>| key_index(p, k, 0) >= 0, |k: Seq<char>| p[key_index(p, k, 0)].1)
}

pub(crate) proof fn lemma_key_index(p: Seq<(Seq<char>, Seq<char>)>, k: Seq<char>, from: int)
    requires
        0 <= from,
    ensures
        key_index(p, k, from) == -1 || (from <= key_index(p, k, from) < p.len() && p[key_index(p, k, from)].0 == k
            && forall|j: int| from <= j < key_index(p, k, from) ==> #[trigger] p[j].0 != k),
        key_index(p, k, from) == -1 ==> forall|j: int| from <= j < p.len() ==> #[trigger] p[j].0 != k,
    decreases p.len() - from,
{
    if from < p.len() && p[from].0 != k {
        lemma_key_index(p, k, from + 1);
    }
}

proof fn lemma_key_index_found(p: Seq<(Seq<char>, Seq<char>)>, k: Seq<char>, from: int, i: int)
    requires
        0 <= from <= i < p.len(),
        p[i].0 == k,
        forall|j: int| from <= j < i ==> #[trigger] p[j].0 != k,
    ensures
        key_index(p, k, from) == i,
    decreases i - from,
{
    if from < i {
        lemma_key_index_found(p, k, from + 1, i);
    }
}

proof fn lemma_key_index_absent(p: Seq<(Seq<char>, Seq<char>)>, k: Seq<char>, from: int)
    requires
        0 <= from,
        forall|j: int| from <= j < p.len() ==> #[trigger] p[j].0 != k,
    ensures
        key_index(p, k, from) == -1,
    decreases p.len() - from,
{
    if from < p.len() {
        lemma_key_index_absent(p, k, from + 1);
    }
}

/// Setting a property behaves as an insertion into a map: each key stays
/// once, the key gets the new value, and the other keys keep theirs.
pub proof fn lemma_props_insert(p: Seq<(Seq<char>, Seq<char>)>, k: Seq<char>, v: Seq<char>)
    requires
        keys_unique(p),
    ensures
        keys_unique(props_insert(p, k, v)),
        props_map(props_insert(p, k, v)) == props_map(p).insert(k, v),
{
    let q = props_insert(p, k, v);
    lemma_key_index(p, k, 0);
    let i = key_index(p, k, 0);
    assert forall|k2: Seq<char>| #[trigger] key_index(q, k2, 0) == (if k2 == k {
        if i >= 0 { i } else { p.len() as int }
    } else {
        key_index(p, k2, 0)
    }) by {
        lemma_key_index(p, k2, 0);
        let i2 = key_index(p, k2, 0);
        if k2 == k {
            if i >= 0 {
                lemma_key_index_found(q, k2, 0, i);
            } else {
                lemma_key_index_found(q, k2, 0, p.len() as int);
            }
        } else {
            if i2 >= 0 {
                lemma_key_index_found(q, k2, 0, i2);
            } else {
                lemma_key_index_absent(q, k2, 0);
            }
        }
    }
    assert forall|a: int, b: int| 0 <= a < b < q.len() implies #[trigger] q[a].0 != #[trigger] q[b].0 by {
        if i >= 0 {
            if a == i {
                assert(p[b].0 != p[i].0);
            } else if b == i {
                assert(p[a].0 != p[i].0);
            }
        } else {
            if b == p.len() {
                assert(p[a].0 != k);
            }
        }
    }
    let m = props_map(p).insert(k, v);
    assert forall|k2: Seq<char>| props_map(q).dom().contains(k2) <==> #[trigger] m.dom().contains(k2) by {
        lemma_key_index(p, k2, 0);
    }
    assert forall|k2: Seq<char>| #[trigger] props_map(q).dom().contains(k2) implies props_map(q)[k2] == m[k2] by {
        lemma_key_index(p, k2, 0);
        if k2 != k {
            let i2 = key_index(p, k2, 0);
            assert(i2 != i);
            assert(q[i2] == p[i2]);
        }
    }
    assert(props_map(q) =~= m);
}


/// The properties that a description collects have each key once.
pub proof fn lemma_collect_keys_unique(ws: Seq<Seq<char>>)
    ensures
        keys_unique(collect(ws).properties),
    decreases ws.len(),
{
    if ws.len() > 0 {
        lemma_collect_keys_unique(ws.drop_last());
        let a = collect(ws.drop_last());
        match classify(ws.last()) {
            Word::Property(k, v) => {
                lemma_props_insert(a.properties, k, v);
            },
            _ => {},
        }
    }
}


pub proof fn lemma_index_of(w: Seq<char>, c: char, k: int)
    requires
        0 <= k,
    ensures
        index_of(w, c, k) == -1 ==> forall|j: int| k <= j < w.len() ==> #[trigger] w[j] != c,
        index_of(w, c, k) != -1 ==> k <= index_of(w, c, k) < w.len() && w[index_of(w, c, k)] == c
            && forall|j: int| k <= j < index_of(w, c, k) ==> #[trigger] w[j] != c,
    decreases w.len() - k,
{
    if k < w.len() && w[k] != c {
        lemma_index_of(w, c, k + 1);
    }
}

/// A property word is split at its first colon: the word is the key, `:` and
/// the value, both sides are not empty and the key holds no colon; and every
/// word that does not start with `+` or `@` and whose first colon has
/// characters on both sides is a property split there.
pub proof fn lemma_property_first_colon(w: Seq<char>, c: int)
    ensures
        classify(w) matches Word::Property(k, v) ==> w == k + seq![':'] + v && k.len() > 0 && v.len() > 0
            && !k.contains(':'),
        (w.len() > 0 && w[0] != '+' && w[0] != '@' && 0 < c < w.len() - 1 && w[c] == ':'
            && forall|j: int| 0 <= j < c ==> #[trigger] w[j] != ':')
            ==> classify(w) == Word::Property(w.take(c), w.skip(c + 1)),
{
    lemma_index_of(w, ':', 0);
    if let Word::Property(k, v) = classify(w) {
        let i = index_of(w, ':', 0);
        assert(w =~= k + seq![':'] + v);
        assert(!k.contains(':')) by {
            if k.contains(':') {
                let j = choose|j: int| 0 <= j < k.len() && k[j] == ':';
                assert(w[j] == k[j]);
            }
        }
    }
    if w.len() > 0 && w[0] != '+' && w[0] != '@' && 0 < c < w.len() - 1 && w[c] == ':'
        && forall|j: int| 0 <= j < c ==> #[trigger] w[j] != ':' {
        let i = index_of(w, ':', 0);
        assert(i == c) by {
            if i == -1 {
                assert(w[c] != ':');
            } else if i < c {
                assert(w[i] != ':');
            } else if i > c {
                assert(w[c] != ':');
            }
        }
    }
}

/// No key that a description collects holds a colon.
pub proof fn lemma_collected_keys_without_colon(ws: Seq<Seq<char>>)
    ensures
        forall|q: int| 0 <= q < collect(ws).properties.len() ==> !(#[trigger] collect(ws).properties[q]).0.contains(':'),
    decreases ws.len(),
{
    if ws.len() > 0 {
        lemma_collected_keys_without_colon(ws.drop_last());
        let a = collect(ws.drop_last());
        match classify(ws.last()) {
            Word::Property(k, v) => {
                lemma_property_first_colon(ws.last(), 0);
                let p = a.properties;
                let i = key_index(p, k, 0);
                let r = props_insert(p, k, v);
                lemma_key_index(p, k, 0);
                assert forall|q: int| 0 <= q < r.len() implies !(#[trigger] r[q]).0.contains(':') by {
                    if i >= 0 {
                        if q != i {
                            assert(r[q] == p[q]);
                        }
                    } else if q < p.len() {
                        assert(r[q] == p[q]);
                    }
                }
            },
            _ => {},
        }
    }
}

/// A description never fails to parse, whatever its text: the format is
/// edited by hand and has to accept anything.
pub proof fn lemma_description_total(s: Seq<char>, i: int)
    ensures
        sp_description(s, i) is Ok,
{
    reveal(sp_description);
}

} // verus!
