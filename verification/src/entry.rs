//! Calendar entries, task entries and the metadata parsed from their descriptions.
use vstd::prelude::*;
use crate::dates::{Date, date_text, chrono_date_text};
use crate::text::push_char;
use vstd::string::StringExecFns;
use crate::iso8601::Interval;
use crate::error::{Error, ParseErr};
use crate::parser::{sp_description, parse_description, props_map, key_index, find_key, lemma_key_index};
use crate::calendar::{sp_calendar_file, calendar_entries_view, parse_calendar_file};
use crate::todo::{sp_todo_file, todo_entries_view, parse_todo_file};
use crate::scan::{SFail, SMode, error_reports, trimmed};

verus! {

/// Parsed metadata from description, contains tags and properties
#[derive(Debug, Default, Eq, Clone)]
pub struct EntryMetadata {
    /// Processed description without tag prefixes or properties
    pub description: String,

    /// Projects referenced in the task
    pub projects: Vec<String>,

    /// Contexts referenced in the task
    pub contexts: Vec<String>,

    /// Properties set in the task, each key once, in the order in which the
    /// keys first appeared
    pub properties: Vec<(String, String)>,
}

/// The contents of an `EntryMetadata`.
pub ghost struct MetadataView {
    pub description: Seq<char>,
    pub projects: Seq<Seq<char>>,
    pub contexts: Seq<Seq<char>>,
    pub properties: Seq<(Seq<char>, Seq<char>)>,
}

pub open spec fn strings_view(v: Seq<String>) -> Seq<Seq<char>> {
    v.map_values(|x: String| x@)
}

pub open spec fn pairs_view(v: Seq<(String, String)>) -> Seq<(Seq<char>, Seq<char>)> {
    v.map_values(|x: (String, String)| (x.0@, x.1@))
}

impl EntryMetadata {
    pub open spec fn view(&self) -> MetadataView {
        MetadataView {
            description: self.description@,
            projects: strings_view(self.projects@),
            contexts: strings_view(self.contexts@),
            properties: pairs_view(self.properties@),
        }
    }

    /// True if there are no tags or properties
    pub fn is_empty(&self) -> (b: bool)
        ensures
            b == (self.projects@.len() == 0 && self.contexts@.len() == 0 && self.properties@.len() == 0),
    {
        self.projects.len() == 0 && self.contexts.len() == 0 && self.properties.len() == 0
    }
}

/// The same strings in the same order.
pub(crate) fn same_strings(a: &Vec<String>, b: &Vec<String>) -> (r: bool)
    ensures
        r == (strings_view(a@) == strings_view(b@)),
{
    if a.len() != b.len() {
        proof {
            assert(strings_view(a@).len() != strings_view(b@).len());
        }
        return false;
    }
    let mut i: usize = 0;
    while i < a.len()
        invariant
            i <= a@.len(),
            a@.len() == b@.len(),
            forall|k: int| 0 <= k < i ==> (#[trigger] a@[k])@ == b@[k]@,
        decreases a@.len() - i,
    {
        if a[i] != b[i] {
            proof {
                assert(strings_view(a@)[i as int] != strings_view(b@)[i as int]);
            }
            return false;
        }
        i = i + 1;
    }
    proof {
        assert(strings_view(a@) =~= strings_view(b@));
    }
    true
}

/// Every key of `pa` is a key of `pb`, with the same value at the first
/// occurrence of the key in each.
pub open spec fn props_within_spec(pa: Seq<(Seq<char>, Seq<char>)>, pb: Seq<(Seq<char>, Seq<char>)>) -> bool {
    forall|j: int| 0 <= j < pa.len() ==> #[trigger] key_index(pb, pa[j].0, 0) >= 0
        && pb[key_index(pb, pa[j].0, 0)].1 == pa[key_index(pa, pa[j].0, 0)].1
}

/// Properties that lie within each other make the same map, and the other way round.
pub(crate) proof fn lemma_props_within_map(pa: Seq<(Seq<char>, Seq<char>)>, pb: Seq<(Seq<char>, Seq<char>)>)
    ensures
        (props_within_spec(pa, pb) && props_within_spec(pb, pa)) <==> props_map(pa) == props_map(pb),
{
    let ma = props_map(pa);
    let mb = props_map(pb);
    if props_within_spec(pa, pb) && props_within_spec(pb, pa) {
        assert forall|k: Seq<char>| #[trigger] ma.dom().contains(k) <==> mb.dom().contains(k) by {
            lemma_key_index(pa, k, 0);
            lemma_key_index(pb, k, 0);
            if key_index(pa, k, 0) >= 0 {
                assert(key_index(pb, pa[key_index(pa, k, 0)].0, 0) >= 0);
            }
            if key_index(pb, k, 0) >= 0 {
                assert(key_index(pa, pb[key_index(pb, k, 0)].0, 0) >= 0);
            }
        }
        assert forall|k: Seq<char>| #[trigger] ma.dom().contains(k) implies ma[k] == mb[k] by {
            lemma_key_index(pa, k, 0);
            assert(key_index(pb, pa[key_index(pa, k, 0)].0, 0) >= 0);
        }
        assert(ma =~= mb);
    }
    if ma == mb {
        assert forall|j: int| 0 <= j < pa.len() implies #[trigger] key_index(pb, pa[j].0, 0) >= 0
            && pb[key_index(pb, pa[j].0, 0)].1 == pa[key_index(pa, pa[j].0, 0)].1 by {
            let k = pa[j].0;
            lemma_key_index(pa, k, 0);
            assert(key_index(pa, k, 0) >= 0);
            assert(ma.dom().contains(k));
            assert(mb.dom().contains(k));
            assert(ma[k] == mb[k]);
        }
        assert forall|j: int| 0 <= j < pb.len() implies #[trigger] key_index(pa, pb[j].0, 0) >= 0
            && pa[key_index(pa, pb[j].0, 0)].1 == pb[key_index(pb, pb[j].0, 0)].1 by {
            let k = pb[j].0;
            lemma_key_index(pb, k, 0);
            assert(key_index(pb, k, 0) >= 0);
            assert(mb.dom().contains(k));
            assert(ma.dom().contains(k));
            assert(ma[k] == mb[k]);
        }
    }
}

/// Every key of `a` is a key of `b` with the same value, each key taken at
/// its first occurrence.
pub(crate) fn props_within(a: &Vec<(String, String)>, b: &Vec<(String, String)>) -> (r: bool)
    ensures
        r == props_within_spec(pairs_view(a@), pairs_view(b@)),
{
    let ghost pa = pairs_view(a@);
    let ghost pb = pairs_view(b@);
    let mut i: usize = 0;
    while i < a.len()
        invariant
            i <= a@.len(),
            pa == pairs_view(a@),
            pb == pairs_view(b@),
            forall|j: int| 0 <= j < i ==> #[trigger] key_index(pb, pa[j].0, 0) >= 0
                && pb[key_index(pb, pa[j].0, 0)].1 == pa[key_index(pa, pa[j].0, 0)].1,
        decreases a@.len() - i,
    {
        let ia = find_key(a, &a[i].0);
        let ib = find_key(b, &a[i].0);
        let ghost k = pa[i as int].0;
        proof {
            assert(k == a@[i as int].0@);
            lemma_key_index(pa, k, 0);
            assert(key_index(pa, k, 0) >= 0);
            assert(key_index(pa, k, 0) == ia);
            assert(key_index(pb, k, 0) == if ib < b@.len() { ib as int } else { -1 });
        }
        if ib >= b.len() {
            proof {
                assert(key_index(pb, pa[i as int].0, 0) < 0);
            }
            return false;
        }
        let same = a[ia].1 == b[ib].1;
        proof {
            assert(pa[ia as int].1 == a@[ia as int].1@);
            assert(pb[ib as int].1 == b@[ib as int].1@);
        }
        if !same {
            proof {
                assert(pb[key_index(pb, pa[i as int].0, 0)].1 != pa[key_index(pa, pa[i as int].0, 0)].1);
            }
            return false;
        }
        i = i + 1;
    }
    true
}

impl PartialEq for EntryMetadata {
    fn eq(&self, other: &Self) -> (r: bool) {
        // properties are compared as maps, whatever their order
        let d = self.description == other.description;
        let p = same_strings(&self.projects, &other.projects);
        let c = same_strings(&self.contexts, &other.contexts);
        let w1 = props_within(&self.properties, &other.properties);
        let w2 = props_within(&other.properties, &self.properties);
        proof {
            lemma_props_within_map(pairs_view(self.properties@), pairs_view(other.properties@));
        }
        d && p && c && w1 && w2
    }
}

impl vstd::std_specs::cmp::PartialEqSpecImpl for EntryMetadata {
    open spec fn obeys_eq_spec() -> bool {
        true
    }

    open spec fn eq_spec(&self, other: &Self) -> bool {
        &&& self.description@ == other.description@
        &&& strings_view(self.projects@) == strings_view(other.projects@)
        &&& strings_view(self.contexts@) == strings_view(other.contexts@)
        &&& props_map(pairs_view(self.properties@)) == props_map(pairs_view(other.properties@))
    }
}

pub open spec fn metadata_opt_view(m: Option<EntryMetadata>) -> Option<MetadataView> {
    match m {
        Some(x) => Some(x@),
        None => None,
    }
}


#[derive(Debug, PartialEq, Eq, Clone)]
pub struct CalendarEntry {
    pub interval: Interval,

    /// Raw unprocessed description
    pub description: String,

    /// Processed metadata of the entry (includes tags and properties)
    pub metadata: Option<EntryMetadata>,
}

pub ghost struct CalendarEntryView {
    pub interval: Interval,
    pub description: Seq<char>,
    pub metadata: Option<MetadataView>,
}

impl CalendarEntry {
    pub open spec fn view(&self) -> CalendarEntryView {
        CalendarEntryView {
            interval: self.interval,
            description: self.description@,
            metadata: metadata_opt_view(self.metadata),
        }
    }
}

#[derive(Debug, PartialEq, Eq, Clone)]
pub struct TodoEntry {
    pub completed: bool,

    /// Priority of the task, it must be A-Z ascii character
    pub priority: Option<char>,

    /// Completion date of the task
    pub completion_date: Option<Date>,

    /// Creation date of the task (must be present if completion_date is)
    pub creation_date: Option<Date>,

    /// Raw unprocessed description of the task
    pub description: String,

    /// Processed metadata of the entry (includes tags and properties)
    pub metadata: Option<EntryMetadata>,
}

pub ghost struct TodoEntryView {
    pub completed: bool,
    pub priority: Option<char>,
    pub completion_date: Option<Date>,
    pub creation_date: Option<Date>,
    pub description: Seq<char>,
    pub metadata: Option<MetadataView>,
}

impl TodoEntry {
    pub open spec fn view(&self) -> TodoEntryView {
        TodoEntryView {
            completed: self.completed,
            priority: self.priority,
            completion_date: self.completion_date,
            creation_date: self.creation_date,
            description: self.description@,
            metadata: metadata_opt_view(self.metadata),
        }
    }
}


/// A task as text: `x ` when completed, the priority in parentheses, the
/// completion date when there is also a creation date, the creation date,
/// and the description, separated by spaces.
pub open spec fn todo_text(e: TodoEntryView) -> Seq<char> {
    (if e.completed { seq!['x', ' '] } else { seq![] })
    + (match e.priority { Some(p) => seq!['(', p, ')', ' '], None => seq![] })
    + (match e.creation_date {
        Some(c) => (match e.completion_date {
            Some(d) => date_text(d) + seq![' '],
            None => seq![],
        }) + date_text(c) + seq![' '],
        None => seq![],
    })
    + e.description
}

impl TodoEntry {
    /// Writes the task in the todo.txt format.
    pub fn to_string(&self) -> (r: String)
        requires
            self.completion_date matches Some(d) ==> d.wf(),
            self.creation_date matches Some(d) ==> d.wf(),
        ensures
            r@ == todo_text(self@),
    {
        let mut out = String::new();
        if self.completed {
            push_char(&mut out, 'x');
            push_char(&mut out, ' ');
        }
        let ghost a = out@;
        if let Some(p) = self.priority {
            push_char(&mut out, '(');
            push_char(&mut out, p);
            push_char(&mut out, ')');
            push_char(&mut out, ' ');
        }
        let ghost b = out@;
        // creation date has to be present if completion date is
        if let Some(c) = self.creation_date {
            if let Some(d) = self.completion_date {
                let t = chrono_date_text(d);
                out.append(t.as_str());
                push_char(&mut out, ' ');
            }
            let t = chrono_date_text(c);
            out.append(t.as_str());
            push_char(&mut out, ' ');
        }
        let ghost c = out@;
        out.append(self.description.as_str());
        proof {
            let v = self@;
            assert(a =~= (if v.completed { seq!['x', ' '] } else { seq![] }));
            assert(b =~= a + (match v.priority { Some(p) => seq!['(', p, ')', ' '], None => seq![] }));
            assert(c =~= b + (match v.creation_date {
                Some(cd) => (match v.completion_date {
                    Some(d) => date_text(d) + seq![' '],
                    None => seq![],
                }) + date_text(cd) + seq![' '],
                None => seq![],
            }));
            assert(out@ =~= todo_text(v));
        }
        out
    }
}


/// The metadata that a description yields.
pub open spec fn description_metadata(d: Seq<char>) -> Option<MetadataView> {
    match sp_description(d, 0) {
        Ok((_, m)) => m,
        Err(_) => None,
    }
}

/// The error that reports failure `f` of the parse of `s`, as `finish`
/// hands it on.
pub open spec fn finished_error(s: Seq<char>, e: Error, f: SFail) -> bool {
    (f.mode is Error || f.mode is Failure) && error_reports(s, e, f)
}

impl CalendarEntry {
    /// Try to update metadata from current description
    pub fn update_metadata(&mut self) -> (r: Result<(), Error>)
        ensures
            r is Ok,
            sp_description(old(self).description@, 0) is Ok,
            final(self).interval == old(self).interval,
            final(self).description == old(self).description,
            metadata_opt_view(final(self).metadata) == description_metadata(old(self).description@),
    {
        let res = parse_description(self.description.as_str());
        proof { reveal(sp_description); }
        match res {
            Ok((_, metadata)) => {
                self.metadata = metadata;
                Ok(())
            },
            Err(_) => {
                proof { assert(false); }
                Ok(())
            },
        }
    }

    /// Parse calendar entries from str
    pub fn from_str(input: &str) -> (r: Result<Vec<Self>, Error>)
        ensures
            match sp_calendar_file(trimmed(input@)) {
                Ok((_, v)) => r matches Ok(x) && calendar_entries_view(x) == v,
                Err(f) => r matches Err(e) && finished_error(trimmed(input@), e, f),
            },
    {
        match parse_calendar_file(input) {
            Ok((_, x)) => Ok(x),
            Err(ParseErr::Error(e)) => Err(e),
            Err(ParseErr::Failure(e)) => Err(e),
            Err(ParseErr::Incomplete(_)) => {
                proof { assert(false); }
                Ok(Vec::new())
            },
        }
    }
}

impl TodoEntry {
    /// Try to update metadata from current description, true if successful
    pub fn update_metadata(&mut self) -> (r: Result<(), Error>)
        ensures
            r is Ok,
            sp_description(old(self).description@, 0) is Ok,
            final(self).completed == old(self).completed,
            final(self).priority == old(self).priority,
            final(self).completion_date == old(self).completion_date,
            final(self).creation_date == old(self).creation_date,
            final(self).description == old(self).description,
            metadata_opt_view(final(self).metadata) == description_metadata(old(self).description@),
    {
        let res = parse_description(self.description.as_str());
        proof { reveal(sp_description); }
        match res {
            Ok((_, metadata)) => {
                self.metadata = metadata;
                Ok(())
            },
            Err(_) => {
                proof { assert(false); }
                Ok(())
            },
        }
    }

    /// Parse todo entries from str. The parse asks for more input whenever it
    /// reaches the end of the input where a task may start, which cannot be
    /// turned into a result: such inputs are left out.
    pub fn from_str(input: &str) -> (r: Result<Vec<Self>, Error>)
        requires
            !(sp_todo_file(trimmed(input@)) matches Err(f) && f.mode is Incomplete),
        ensures
            match sp_todo_file(trimmed(input@)) {
                Ok((_, v)) => r matches Ok(x) && todo_entries_view(x) == v,
                Err(f) => r matches Err(e) && finished_error(trimmed(input@), e, f),
            },
    {
        match parse_todo_file(input) {
            Ok((_, x)) => Ok(x),
            Err(ParseErr::Error(e)) => Err(e),
            Err(ParseErr::Failure(e)) => Err(e),
            Err(ParseErr::Incomplete(_)) => {
                proof { assert(false); }
                Ok(Vec::new())
            },
        }
    }
}

} // verus!
