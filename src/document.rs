//! The parsed form of a unit-definition file: named sections, each holding
//! keys with one value apiece. Sections and keys keep the order in which they
//! first appeared; a name occurs once among the sections, a key once within
//! its section.
use vstd::prelude::*;

verus! {

pub type EntryView = (Seq<char>, Seq<char>);

pub type SectionView = (Seq<char>, Seq<EntryView>);

pub type DocumentView = Seq<SectionView>;

/// One key of a section with its (possibly merged) value.
#[derive(Debug, Clone)]
pub struct Entry {
    pub key: String,
    pub value: String,
}

/// A named section and its entries, in order of first appearance.
#[derive(Debug, Clone)]
pub struct Section {
    pub name: String,
    pub entries: Vec<Entry>,
}

/// The sections of a file, in order of first appearance.
#[derive(Debug, Clone)]
pub struct Document {
    pub sections: Vec<Section>,
}

impl View for Entry {
    type V = EntryView;

    open spec fn view(&self) -> EntryView {
        (self.key@, self.value@)
    }
}

impl View for Section {
    type V = SectionView;

    open spec fn view(&self) -> SectionView {
        (self.name@, self.entries@.map_values(|e: Entry| e@))
    }
}

impl View for Document {
    type V = DocumentView;

    open spec fn view(&self) -> DocumentView {
        self.sections@.map_values(|s: Section| s@)
    }
}

/// The index of the first section at or after `from` named `name`, or `d.len()`.
pub open spec fn section_index_from(d: DocumentView, name: Seq<char>, from: int) -> int
    decreases d.len() - from,
{
    if from < 0 || from >= d.len() {
        d.len() as int
    } else if d[from].0 == name {
        from
    } else {
        section_index_from(d, name, from + 1)
    }
}

pub open spec fn section_index(d: DocumentView, name: Seq<char>) -> int {
    section_index_from(d, name, 0)
}

/// The index of the first entry at or after `from` with key `key`, or `es.len()`.
pub open spec fn key_index_from(es: Seq<EntryView>, key: Seq<char>, from: int) -> int
    decreases es.len() - from,
{
    if from < 0 || from >= es.len() {
        es.len() as int
    } else if es[from].0 == key {
        from
    } else {
        key_index_from(es, key, from + 1)
    }
}

pub open spec fn key_index(es: Seq<EntryView>, key: Seq<char>) -> int {
    key_index_from(es, key, 0)
}

pub open spec fn has_section(d: DocumentView, name: Seq<char>) -> bool {
    section_index(d, name) < d.len()
}

/// The value of `key` in section `section`, if both are present.
pub open spec fn lookup(d: DocumentView, section: Seq<char>, key: Seq<char>) -> Option<Seq<char>> {
    let si = section_index(d, section);
    if si >= d.len() {
        None
    } else {
        let es = d[si].1;
        let ki = key_index(es, key);
        if ki >= es.len() {
            None
        } else {
            Some(es[ki].1)
        }
    }
}

pub open spec fn keys_unique(es: Seq<EntryView>) -> bool {
    forall|i: int, j: int| 0 <= i < j < es.len() ==> es[i].0 != es[j].0
}

pub open spec fn names_unique(d: DocumentView) -> bool {
    forall|i: int, j: int| 0 <= i < j < d.len() ==> d[i].0 != d[j].0
}

/// Section names are unique, and keys are unique within each section.
pub open spec fn document_wf(d: DocumentView) -> bool {
    &&& names_unique(d)
    &&& forall|i: int| 0 <= i < d.len() ==> keys_unique(#[trigger] d[i].1)
}

/// `old` and `new` joined as repeated occurrences of one key: the two with the
/// separator between them, whatever either holds.
pub open spec fn merged_value(old: Seq<char>, new: Seq<char>) -> Seq<char> {
    old + seq![',', ' '] + new
}

/// The entries after one more occurrence of `key` with value `value`.
pub open spec fn entries_with_occurrence(
    es: Seq<EntryView>,
    key: Seq<char>,
    value: Seq<char>,
) -> Seq<EntryView> {
    let ki = key_index(es, key);
    if ki < es.len() {
        es.update(ki, (key, merged_value(es[ki].1, value)))
    } else {
        es.push((key, value))
    }
}

/// The document with `name` present: unchanged if it was, else with an empty
/// section of that name at the end.
pub open spec fn with_section(d: DocumentView, name: Seq<char>) -> DocumentView {
    if has_section(d, name) {
        d
    } else {
        d.push((name, Seq::<EntryView>::empty()))
    }
}

pub proof fn lemma_section_index_from(d: DocumentView, name: Seq<char>, from: int)
    requires
        0 <= from <= d.len(),
    ensures
        from <= section_index_from(d, name, from) <= d.len(),
        section_index_from(d, name, from) < d.len() ==> d[section_index_from(d, name, from)].0
            == name,
        forall|j: int| from <= j < section_index_from(d, name, from) ==> d[j].0 != name,
    decreases d.len() - from,
{
    if from < d.len() && d[from].0 != name {
        lemma_section_index_from(d, name, from + 1);
    }
}

pub proof fn lemma_key_index_from(es: Seq<EntryView>, key: Seq<char>, from: int)
    requires
        0 <= from <= es.len(),
    ensures
        from <= key_index_from(es, key, from) <= es.len(),
        key_index_from(es, key, from) < es.len() ==> es[key_index_from(es, key, from)].0 == key,
        forall|j: int| from <= j < key_index_from(es, key, from) ==> es[j].0 != key,
    decreases es.len() - from,
{
    if from < es.len() && es[from].0 != key {
        lemma_key_index_from(es, key, from + 1);
    }
}

/// A key absent from the entries is not found.
pub proof fn lemma_key_index_absent(es: Seq<EntryView>, key: Seq<char>)
    requires
        forall|j: int| 0 <= j < es.len() ==> es[j].0 != key,
    ensures
        key_index(es, key) == es.len(),
{
    lemma_key_index_from(es, key, 0);
}

proof fn lemma_entries_with_occurrence_wf(es: Seq<EntryView>, key: Seq<char>, value: Seq<char>)
    requires
        keys_unique(es),
    ensures
        keys_unique(entries_with_occurrence(es, key, value)),
{
    lemma_key_index_from(es, key, 0);
}

impl Document {
    pub open spec fn wf(&self) -> bool {
        document_wf(self@)
    }

    /// A document without sections.
    pub fn new() -> (r: Document)
        ensures
            r@ == Seq::<SectionView>::empty(),
            r.wf(),
    {
        Document { sections: Vec::new() }
    }

    /// The index of the section named `name`, or the number of sections.
    pub fn find_section(&self, name: &str) -> (r: usize)
        ensures
            r == section_index(self@, name@),
    {
        let wanted = name.to_owned();
        let mut i: usize = 0;
        while i < self.sections.len() && self.sections[i].name != wanted
            invariant
                i <= self.sections@.len(),
                wanted@ == name@,
                section_index_from(self@, name@, i as int) == section_index(self@, name@),
            decreases self.sections@.len() - i,
        {
            i = i + 1;
        }
        i
    }

    /// Whether a section is named `name`.
    pub fn contains_section(&self, name: &str) -> (r: bool)
        ensures
            r == has_section(self@, name@),
    {
        self.find_section(name) < self.sections.len()
    }

    /// The value of `key` in section `section`, if both are present.
    pub fn get(&self, section: &str, key: &str) -> (r: Option<&String>)
        ensures
            match r {
                Some(v) => lookup(self@, section@, key@) == Some(v@),
                None => lookup(self@, section@, key@).is_none(),
            },
    {
        let si = self.find_section(section);
        if si >= self.sections.len() {
            return None;
        }
        let entries = &self.sections[si].entries;
        let ghost es = self@[si as int].1;
        assert(entries@.map_values(|e: Entry| e@) == es);
        let wanted = key.to_owned();
        let mut i: usize = 0;
        while i < entries.len() && entries[i].key != wanted
            invariant
                i <= entries@.len(),
                wanted@ == key@,
                es == entries@.map_values(|e: Entry| e@),
                key_index_from(es, key@, i as int) == key_index(es, key@),
            decreases entries@.len() - i,
        {
            i = i + 1;
        }
        if i < entries.len() {
            Some(&entries[i].value)
        } else {
            None
        }
    }

    /// Adds an empty section named `name` at the end unless one is present;
    /// returns the index of the section of that name.
    pub fn add_section(&mut self, name: &str) -> (r: usize)
        requires
            old(self).wf(),
        ensures
            final(self)@ == with_section(old(self)@, name@),
            final(self).wf(),
            r == section_index(final(self)@, name@),
            r < final(self)@.len(),
    {
        let i = self.find_section(name);
        proof {
            lemma_section_index_from(self@, name@, 0);
        }
        if i < self.sections.len() {
            return i;
        }
        let fresh = Section { name: name.to_owned(), entries: Vec::new() };
        assert(fresh@.1 =~= Seq::<EntryView>::empty());
        self.sections.push(fresh);
        proof {
            let d = self@;
            assert(d =~= old(self)@.push((name@, Seq::<EntryView>::empty())));
            assert forall|j: int| 0 <= j < i implies d[j].0 != name@ by {
                assert(d[j] == old(self)@[j]);
            }
            lemma_section_index_from(d, name@, 0);
            assert(d[i as int].0 == name@);
        }
        i
    }

    /// Records one more occurrence of `key` in section number `section`: a new
    /// entry, or the value merged into the one present.
    pub fn add_occurrence(&mut self, section: usize, key: &str, value: &str)
        requires
            old(self).wf(),
            section < old(self)@.len(),
        ensures
            final(self).wf(),
            final(self)@ == old(self)@.update(
                section as int,
                (
                    old(self)@[section as int].0,
                    entries_with_occurrence(old(self)@[section as int].1, key@, value@),
                ),
            ),
    {
        let mut sec = self.sections.remove(section);
        let ghost es = sec@.1;
        assert(old(self)@[section as int] == sec@);
        assert(keys_unique(es));
        let wanted = key.to_owned();
        let mut i: usize = 0;
        while i < sec.entries.len() && sec.entries[i].key != wanted
            invariant
                i <= sec.entries@.len(),
                wanted@ == key@,
                es == sec.entries@.map_values(|e: Entry| e@),
                key_index_from(es, key@, i as int) == key_index(es, key@),
            decreases sec.entries@.len() - i,
        {
            i = i + 1;
        }
        proof {
            lemma_key_index_from(es, key@, i as int);
        }
        if i < sec.entries.len() {
            let mut e = sec.entries.remove(i);
            let ghost before = e.value@;
            assert(es[i as int] == e@);
            e.value.append(", ");
            proof {
                reveal_strlit(", ");
            }
            e.value.append(value);
            assert(e.value@ =~= merged_value(before, value@));
            sec.entries.insert(i, e);
            assert(sec.entries@.map_values(|e: Entry| e@) =~= entries_with_occurrence(es, key@, value@));
        } else {
            sec.entries.push(Entry { key: wanted, value: value.to_owned() });
            assert(sec.entries@.map_values(|e: Entry| e@) =~= entries_with_occurrence(es, key@, value@));
        }
        let ghost new_sec = sec@;
        self.sections.insert(section, sec);
        proof {
            lemma_entries_with_occurrence_wf(es, key@, value@);
            assert(self@ =~= old(self)@.update(section as int, new_sec));
        }
    }
}

} // verus!
