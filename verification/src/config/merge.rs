//! Laying one document over another: section by section and key by key, the
//! upper document wins.

use vstd::prelude::*;
use crate::parser::{
    in_order, keys_of, names_of, Entry, EntryView, Item, ItemView, Section, SectionView,
};
use crate::text::{ascending, label_same, lemma_ascending_distinct};

verus! {

/// The index of the first of `keys` that equals `key`.
pub open spec fn first_index(keys: Seq<Seq<char>>, key: Seq<char>) -> Option<int>
    decreases keys.len(),
{
    if keys.len() == 0 {
        None
    } else {
        match first_index(keys.drop_last(), key) {
            Some(at) => Some(at),
            None => if keys.last() == key {
                Some(keys.len() - 1)
            } else {
                None
            },
        }
    }
}

/// What the first entry with a key holds.
pub open spec fn value_of(entries: Seq<EntryView>, key: Seq<char>) -> Option<ItemView> {
    match first_index(keys_of(entries), key) {
        Some(at) => Some(entries[at].value),
        None => None,
    }
}

/// What a document holds under a key of a section: the first section of
/// that name counts, and in it the first entry with that key.
pub open spec fn lookup(document: Seq<SectionView>, section: Seq<char>, key: Seq<char>) -> Option<
    ItemView,
> {
    match first_index(names_of(document), section) {
        Some(at) => value_of(document[at].entries, key),
        None => None,
    }
}

/// Entries with one more laid over them: it takes the place of the first
/// entry with its key, or comes last where there is none.
pub open spec fn overlay_entry(entries: Seq<EntryView>, entry: EntryView) -> Seq<EntryView> {
    match first_index(keys_of(entries), entry.key) {
        Some(at) => entries.update(at, entry),
        None => entries.push(entry),
    }
}

/// Entries with others laid over them one by one, in their order.
pub open spec fn overlay_entries(base: Seq<EntryView>, over: Seq<EntryView>) -> Seq<EntryView>
    decreases over.len(),
{
    if over.len() == 0 {
        base
    } else {
        overlay_entry(overlay_entries(base, over.drop_last()), over.last())
    }
}

/// A document with one section laid over it: its entries are laid over
/// those of the first section of its name, or it comes last where there is
/// none.
pub open spec fn overlay_section(document: Seq<SectionView>, section: SectionView) -> Seq<
    SectionView,
> {
    match first_index(names_of(document), section.name) {
        Some(at) => document.update(
            at,
            SectionView {
                name: section.name,
                entries: overlay_entries(document[at].entries, section.entries),
            },
        ),
        None => document.push(section),
    }
}

/// A document with another laid over it, section by section in their
/// order.
pub open spec fn merge(base: Seq<SectionView>, over: Seq<SectionView>) -> Seq<SectionView>
    decreases over.len(),
{
    if over.len() == 0 {
        base
    } else {
        overlay_section(merge(base, over.drop_last()), over.last())
    }
}

/// Where `first_index` finds a key, the key stands there and nowhere
/// before; where it finds none, the key stands nowhere.
pub proof fn lemma_first_index(keys: Seq<Seq<char>>, key: Seq<char>)
    ensures
        match first_index(keys, key) {
            Some(at) => 0 <= at < keys.len() && keys[at] == key && forall|j: int|
                0 <= j < at ==> #[trigger] keys[j] != key,
            None => forall|j: int| 0 <= j < keys.len() ==> #[trigger] keys[j] != key,
        },
    decreases keys.len(),
{
    if keys.len() > 0 {
        let front = keys.drop_last();
        lemma_first_index(front, key);
        assert forall|j: int| 0 <= j < front.len() implies keys[j] == front[j] by {}
    }
}

/// The first place where a key stands is what `first_index` finds.
pub proof fn lemma_first_index_is(keys: Seq<Seq<char>>, key: Seq<char>, at: int)
    requires
        0 <= at < keys.len(),
        keys[at] == key,
        forall|j: int| 0 <= j < at ==> #[trigger] keys[j] != key,
    ensures
        first_index(keys, key) == Some(at),
{
    lemma_first_index(keys, key);
}

/// No two sections of a document have one name, and no two keys of a
/// section are the same.
pub open spec fn distinct(document: Seq<SectionView>) -> bool {
    &&& forall|i: int, j: int|
        0 <= i < j < document.len() ==> (#[trigger] document[i]).name != (
        #[trigger] document[j]).name
    &&& forall|s: int, i: int, j: int|
        0 <= s < document.len() && 0 <= i < j < document[s].entries.len() ==> (
        #[trigger] document[s].entries[i]).key != (#[trigger] document[s].entries[j]).key
}

/// A document in order holds no name and no key twice.
pub proof fn lemma_in_order_distinct(document: Seq<SectionView>)
    requires
        in_order(document),
    ensures
        distinct(document),
{
    assert forall|i: int, j: int| 0 <= i < j < document.len() implies (#[trigger] document[i]).name
        != (#[trigger] document[j]).name by {
        lemma_ascending_distinct(names_of(document), i, j);
    }
    assert forall|s: int, i: int, j: int|
        0 <= s < document.len() && 0 <= i < j < document[s].entries.len() implies (
    #[trigger] document[s].entries[i]).key != (#[trigger] document[s].entries[j]).key by {
        lemma_ascending_distinct(keys_of(document[s].entries), i, j);
    }
}

/// No two entries have one key.
pub open spec fn distinct_keys(entries: Seq<EntryView>) -> bool {
    forall|i: int, j: int|
        0 <= i < j < entries.len() ==> (#[trigger] entries[i]).key != (#[trigger] entries[j]).key
}

/// After an entry is laid over entries, its key holds what it holds and
/// every other key holds what it held.
pub proof fn lemma_overlay_entry(entries: Seq<EntryView>, entry: EntryView, key: Seq<char>)
    ensures
        value_of(overlay_entry(entries, entry), key) == (if key == entry.key {
            Some(entry.value)
        } else {
            value_of(entries, key)
        }),
{
    let keys = keys_of(entries);
    let after = overlay_entry(entries, entry);
    lemma_first_index(keys, entry.key);
    lemma_first_index(keys, key);
    if first_index(keys, entry.key) is Some {
        assert(keys_of(after) =~= keys);
    } else {
        assert(keys_of(after) =~= keys.push(entry.key));
        assert(keys.push(entry.key).drop_last() =~= keys);
    }
}

/// Among entries with distinct keys, a key holds what the last entry holds
/// if that has the key, else what it holds among the others.
proof fn lemma_value_of_last(entries: Seq<EntryView>, key: Seq<char>)
    requires
        entries.len() > 0,
        distinct_keys(entries),
    ensures
        distinct_keys(entries.drop_last()),
        value_of(entries, key) == (if key == entries.last().key {
            Some(entries.last().value)
        } else {
            value_of(entries.drop_last(), key)
        }),
{
    let front = entries.drop_last();
    assert(keys_of(entries).drop_last() =~= keys_of(front));
    lemma_first_index(keys_of(front), key);
}

/// After entries with distinct keys are laid over others, a key holds what
/// it holds in the upper entries, or else what it held.
pub proof fn lemma_overlay_entries(base: Seq<EntryView>, over: Seq<EntryView>, key: Seq<char>)
    requires
        distinct_keys(over),
    ensures
        value_of(overlay_entries(base, over), key) == (match value_of(over, key) {
            Some(value) => Some(value),
            None => value_of(base, key),
        }),
    decreases over.len(),
{
    if over.len() > 0 {
        lemma_value_of_last(over, key);
        lemma_overlay_entries(base, over.drop_last(), key);
        lemma_overlay_entry(overlay_entries(base, over.drop_last()), over.last(), key);
    }
}

/// After a section with distinct keys is laid over a document, a key of a
/// section of its name holds what it holds in it, or else what it held; the
/// other sections hold what they held.
pub proof fn lemma_overlay_section(
    document: Seq<SectionView>,
    section: SectionView,
    name: Seq<char>,
    key: Seq<char>,
)
    requires
        distinct_keys(section.entries),
    ensures
        lookup(overlay_section(document, section), name, key) == (if name == section.name {
            match value_of(section.entries, key) {
                Some(value) => Some(value),
                None => lookup(document, name, key),
            }
        } else {
            lookup(document, name, key)
        }),
{
    let names = names_of(document);
    let after = overlay_section(document, section);
    lemma_first_index(names, section.name);
    lemma_first_index(names, name);
    match first_index(names, section.name) {
        Some(at) => {
            assert(names_of(after) =~= names);
            if name == section.name {
                lemma_overlay_entries(document[at].entries, section.entries, key);
            }
        },
        None => {
            assert(names_of(after) =~= names.push(section.name));
            assert(names.push(section.name).drop_last() =~= names);
        },
    }
}

/// Laying one document over another, the upper one wins key by key: under
/// a key of a section the result holds what the upper document holds there,
/// or else what the lower one holds.
pub proof fn law_override_wins(
    base: Seq<SectionView>,
    over: Seq<SectionView>,
    section: Seq<char>,
    key: Seq<char>,
)
    requires
        distinct(over),
    ensures
        lookup(merge(base, over), section, key) == (match lookup(over, section, key) {
            Some(value) => Some(value),
            None => lookup(base, section, key),
        }),
    decreases over.len(),
{
    if over.len() > 0 {
        let front = over.drop_last();
        law_override_wins(base, front, section, key);
        lemma_overlay_section(merge(base, front), over.last(), section, key);
        assert(names_of(over).drop_last() =~= names_of(front));
        lemma_first_index(names_of(front), section);
    }
}

/// The names that `names` adds to those in `have`: the names that `have`
/// lacks, in their order.
pub open spec fn added_names(have: Seq<Seq<char>>, names: Seq<Seq<char>>) -> Seq<Seq<char>>
    decreases names.len(),
{
    if names.len() == 0 {
        Seq::empty()
    } else if have.contains(names.last()) {
        added_names(have, names.drop_last())
    } else {
        added_names(have, names.drop_last()).push(names.last())
    }
}

/// Every added name is one of the names given.
proof fn lemma_added_names_within(have: Seq<Seq<char>>, names: Seq<Seq<char>>, i: int)
    requires
        0 <= i < added_names(have, names).len(),
    ensures
        names.contains(added_names(have, names)[i]),
    decreases names.len(),
{
    if names.len() > 0 {
        let front = names.drop_last();
        if i < added_names(have, front).len() {
            lemma_added_names_within(have, front, i);
            let k = front.index_of(added_names(have, front)[i]);
            assert(names[k] == front[k]);
        } else {
            assert(names.last() == added_names(have, names)[i]);
        }
    }
}

/// Laying one document over another keeps the sections of the lower one in
/// their places; the sections that only the upper one has follow in its
/// order.
pub proof fn law_merge_names(base: Seq<SectionView>, over: Seq<SectionView>)
    requires
        forall|i: int, j: int|
            0 <= i < j < over.len() ==> (#[trigger] over[i]).name != (#[trigger] over[j]).name,
    ensures
        names_of(merge(base, over)) == names_of(base) + added_names(
            names_of(base),
            names_of(over),
        ),
    decreases over.len(),
{
    if over.len() > 0 {
        let front = over.drop_last();
        let last = over.len() - 1;
        let name = over[last].name;
        let below = merge(base, front);
        let added = added_names(names_of(base), names_of(front));
        law_merge_names(base, front);
        assert(names_of(over).drop_last() =~= names_of(front));
        lemma_first_index(names_of(below), name);
        assert forall|i: int| 0 <= i < added.len() implies added[i] != name by {
            lemma_added_names_within(names_of(base), names_of(front), i);
            let k = names_of(front).index_of(added[i]);
            assert(over[k].name != over[last].name);
        }
        if first_index(names_of(below), name) is None {
            assert forall|i: int| 0 <= i < names_of(base).len() implies names_of(base)[i]
                != name by {
                assert(names_of(below)[i] == names_of(base)[i]);
            }
            assert(names_of(merge(base, over)) =~= names_of(below).push(name));
        }
    }
}

fn copy_item(item: &Item) -> (copy: Item)
    ensures
        copy.deep_view() == item.deep_view(),
{
    match item {
        Item::Text(text) => Item::Text(text.clone()),
        Item::Flag(flag) => Item::Flag(*flag),
        Item::Other => Item::Other,
    }
}

fn copy_entry(entry: &Entry) -> (copy: Entry)
    ensures
        copy.deep_view() == entry.deep_view(),
{
    Entry { key: entry.key.clone(), value: copy_item(&entry.value) }
}

fn copy_entries(entries: &Vec<Entry>) -> (copy: Vec<Entry>)
    ensures
        copy.deep_view() == entries.deep_view(),
{
    let mut copy: Vec<Entry> = Vec::new();
    let mut i: usize = 0;
    while i < entries.len()
        invariant
            i <= entries@.len(),
            copy@.len() == i,
            forall|k: int| 0 <= k < i ==> #[trigger] copy@[k].deep_view() == entries@[k].deep_view(),
        decreases entries@.len() - i,
    {
        copy.push(copy_entry(&entries[i]));
        i = i + 1;
    }
    copy
}

fn copy_section(section: &Section) -> (copy: Section)
    ensures
        copy.deep_view() == section.deep_view(),
{
    Section { name: section.name.clone(), entries: copy_entries(&section.entries) }
}

/// The index of the first entry with a key.
pub fn find_key(entries: &Vec<Entry>, key: &str) -> (found: Option<usize>)
    ensures
        match found {
            Some(at) => at < entries@.len() && first_index(keys_of(entries.deep_view()), key@)
                == Some(at as int),
            None => first_index(keys_of(entries.deep_view()), key@) is None,
        },
{
    let ghost keys = keys_of(entries.deep_view());
    let mut i: usize = 0;
    while i < entries.len()
        invariant
            i <= entries@.len(),
            keys == keys_of(entries.deep_view()),
            forall|j: int| 0 <= j < i ==> #[trigger] keys[j] != key@,
        decreases entries@.len() - i,
    {
        if label_same(entries[i].key.as_str(), key) {
            proof {
                lemma_first_index_is(keys, key@, i as int);
            }
            return Some(i);
        }
        i = i + 1;
    }
    proof {
        lemma_first_index(keys, key@);
    }
    None
}

/// The index of the first section with a name.
pub fn find_section(sections: &Vec<Section>, name: &str) -> (found: Option<usize>)
    ensures
        match found {
            Some(at) => at < sections@.len() && first_index(
                names_of(sections.deep_view()),
                name@,
            ) == Some(at as int),
            None => first_index(names_of(sections.deep_view()), name@) is None,
        },
{
    let ghost names = names_of(sections.deep_view());
    let mut i: usize = 0;
    while i < sections.len()
        invariant
            i <= sections@.len(),
            names == names_of(sections.deep_view()),
            forall|j: int| 0 <= j < i ==> #[trigger] names[j] != name@,
        decreases sections@.len() - i,
    {
        if label_same(sections[i].name.as_str(), name) {
            proof {
                lemma_first_index_is(names, name@, i as int);
            }
            return Some(i);
        }
        i = i + 1;
    }
    proof {
        lemma_first_index(names, name@);
    }
    None
}

/// Lays entries over others, one by one.
fn lay_entries(base: Vec<Entry>, over: &Vec<Entry>) -> (laid: Vec<Entry>)
    ensures
        laid.deep_view() == overlay_entries(base.deep_view(), over.deep_view()),
{
    let mut laid = base;
    let mut i: usize = 0;
    while i < over.len()
        invariant
            i <= over@.len(),
            laid.deep_view() == overlay_entries(base.deep_view(), over.deep_view().take(i as int)),
        decreases over@.len() - i,
    {
        let entry = copy_entry(&over[i]);
        match find_key(&laid, entry.key.as_str()) {
            Some(at) => {
                laid.set(at, entry);
            },
            None => {
                laid.push(entry);
            },
        }
        proof {
            let upto = over.deep_view().take(i as int + 1);
            assert(upto.drop_last() =~= over.deep_view().take(i as int));
        }
        i = i + 1;
    }
    assert(over.deep_view().take(over@.len() as int) =~= over.deep_view());
    laid
}

/// Lays one document over another: section by section and key by key the
/// upper document wins. The sections of the lower document keep their
/// places; those that only the upper one has follow in its order.
pub fn merge_documents(base: Vec<Section>, over: &Vec<Section>) -> (merged: Vec<Section>)
    ensures
        merged.deep_view() == merge(base.deep_view(), over.deep_view()),
{
    let mut merged = base;
    let mut i: usize = 0;
    while i < over.len()
        invariant
            i <= over@.len(),
            merged.deep_view() == merge(base.deep_view(), over.deep_view().take(i as int)),
        decreases over@.len() - i,
    {
        match find_section(&merged, over[i].name.as_str()) {
            Some(at) => {
                let entries = lay_entries(copy_entries(&merged[at].entries), &over[i].entries);
                let section = Section { name: over[i].name.clone(), entries };
                merged.set(at, section);
            },
            None => {
                merged.push(copy_section(&over[i]));
            },
        }
        proof {
            let upto = over.deep_view().take(i as int + 1);
            assert(upto.drop_last() =~= over.deep_view().take(i as int));
        }
        i = i + 1;
    }
    assert(over.deep_view().take(over@.len() as int) =~= over.deep_view());
    merged
}

} // verus!
