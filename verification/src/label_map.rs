//! A map from labels to values that keeps its labels in ascending order:
//! the colours of a palette by label, the settings of a program by name.

use vstd::prelude::*;
use crate::text::{
    ascending, label_less, label_lt, label_same, lemma_ascending_distinct,
    lemma_label_lt_irreflexive, lemma_label_lt_total, lemma_label_lt_transitive,
};

verus! {

/// The labels of a run of entries, in their order.
spec fn labels_of<T>(entries: Seq<(String, T)>) -> Seq<Seq<char>> {
    Seq::new(entries.len(), |i: int| entries[i].0@)
}

/// The map that a run of entries stands for. Of two entries with one label
/// the later one counts.
spec fn map_of<T>(entries: Seq<(String, T)>) -> Map<Seq<char>, T>
    decreases entries.len(),
{
    if entries.len() == 0 {
        Map::empty()
    } else {
        map_of(entries.drop_last()).insert(entries.last().0@, entries.last().1)
    }
}

/// Values by label. Labels are case-sensitive and each occurs once.
#[derive(Debug)]
pub struct LabelMap<T> {
    entries: Vec<(String, T)>,
}

impl<T> View for LabelMap<T> {
    type V = Map<Seq<char>, T>;

    closed spec fn view(&self) -> Map<Seq<char>, T> {
        map_of(self.entries@)
    }
}

/// What a run of entries with ascending labels holds: one value for each
/// of its labels, and nothing else.
proof fn lemma_map_of<T>(entries: Seq<(String, T)>)
    requires
        ascending(labels_of(entries)),
    ensures
        map_of(entries).dom().finite(),
        map_of(entries).len() == entries.len(),
        forall|l: Seq<char>|
            map_of(entries).contains_key(l) <==> exists|i: int|
                0 <= i < entries.len() && #[trigger] labels_of(entries)[i] == l,
        forall|i: int|
            0 <= i < entries.len() ==> map_of(entries).contains_key(
                #[trigger] labels_of(entries)[i],
            ) && map_of(entries)[labels_of(entries)[i]] == entries[i].1,
    decreases entries.len(),
{
    if entries.len() > 0 {
        let front = entries.drop_last();
        let last = entries.len() - 1;
        let key = entries[last].0@;
        assert forall|i: int, j: int| 0 <= i < j < front.len() implies label_lt(
            #[trigger] labels_of(front)[i],
            #[trigger] labels_of(front)[j],
        ) by {
            assert(label_lt(labels_of(entries)[i], labels_of(entries)[j]));
        }
        lemma_map_of(front);
        assert forall|i: int| 0 <= i < front.len() implies #[trigger] labels_of(front)[i]
            != key by {
            assert(label_lt(labels_of(entries)[i], labels_of(entries)[last]));
            lemma_label_lt_irreflexive(key);
        }
        assert forall|l: Seq<char>|
            map_of(entries).contains_key(l) <==> exists|i: int|
                0 <= i < entries.len() && #[trigger] labels_of(entries)[i] == l by {
            if map_of(entries).contains_key(l) {
                if l == key {
                    assert(labels_of(entries)[last] == l);
                } else {
                    let i = choose|i: int|
                        0 <= i < front.len() && #[trigger] labels_of(front)[i] == l;
                    assert(labels_of(entries)[i] == l);
                }
            }
            if exists|i: int| 0 <= i < entries.len() && #[trigger] labels_of(entries)[i] == l {
                let i = choose|i: int|
                    0 <= i < entries.len() && #[trigger] labels_of(entries)[i] == l;
                if i < last {
                    assert(labels_of(front)[i] == l);
                }
            }
        }
        assert forall|i: int| 0 <= i < entries.len() implies map_of(entries).contains_key(
            #[trigger] labels_of(entries)[i],
        ) && map_of(entries)[labels_of(entries)[i]] == entries[i].1 by {
            if i < last {
                assert(labels_of(front)[i] == labels_of(entries)[i]);
            }
        }
    }
}

/// Replacing the value of an entry keeps the order and puts the value
/// under the entry's label.
proof fn lemma_replaced<T>(before: Seq<(String, T)>, at: int, after: Seq<(String, T)>)
    requires
        ascending(labels_of(before)),
        0 <= at < before.len(),
        after.len() == before.len(),
        after[at].0@ == before[at].0@,
        forall|i: int| 0 <= i < before.len() && i != at ==> after[i] == before[i],
    ensures
        ascending(labels_of(after)),
        map_of(after) == map_of(before).insert(after[at].0@, after[at].1),
{
    assert(labels_of(after) =~= labels_of(before));
    assert(labels_of(before)[at] == after[at].0@);
    lemma_map_of(before);
    lemma_map_of(after);
}

/// Putting a new label at its place keeps the order and adds the label
/// with its value.
proof fn lemma_inserted<T>(before: Seq<(String, T)>, at: int, after: Seq<(String, T)>)
    requires
        ascending(labels_of(before)),
        0 <= at <= before.len(),
        after =~= before.insert(at, after[at]),
        after.len() == before.len() + 1,
        forall|i: int| 0 <= i < at ==> label_lt(#[trigger] labels_of(before)[i], after[at].0@),
        forall|i: int|
            at <= i < before.len() ==> label_lt(after[at].0@, #[trigger] labels_of(before)[i]),
    ensures
        ascending(labels_of(after)),
        map_of(after) == map_of(before).insert(after[at].0@, after[at].1),
{
    let key = after[at].0@;
    assert forall|i: int, j: int| 0 <= i < j < after.len() implies label_lt(
        #[trigger] labels_of(after)[i],
        #[trigger] labels_of(after)[j],
    ) by {
        let bi = if i < at {
            i
        } else {
            i - 1
        };
        let bj = if j < at {
            j
        } else {
            j - 1
        };
        if i == at {
            assert(label_lt(key, labels_of(before)[bj]));
        } else if j == at {
            assert(label_lt(labels_of(before)[bi], key));
        } else {
            assert(label_lt(labels_of(before)[bi], labels_of(before)[bj]));
        }
    }
    lemma_map_of(before);
    lemma_map_of(after);
    let wanted = map_of(before).insert(key, after[at].1);
    assert forall|l: Seq<char>| map_of(after).contains_key(l) <==> wanted.contains_key(l) by {
        if map_of(after).contains_key(l) {
            let i = choose|i: int| 0 <= i < after.len() && #[trigger] labels_of(after)[i] == l;
            if i < at {
                assert(labels_of(before)[i] == l);
            } else if i > at {
                assert(labels_of(before)[i - 1] == l);
            }
        }
        if wanted.contains_key(l) {
            if l == key {
                assert(labels_of(after)[at] == l);
            } else {
                let i = choose|i: int|
                    0 <= i < before.len() && #[trigger] labels_of(before)[i] == l;
                if i < at {
                    assert(labels_of(after)[i] == l);
                } else {
                    assert(labels_of(after)[i + 1] == l);
                }
            }
        }
    }
    assert forall|l: Seq<char>| map_of(after).contains_key(l) implies #[trigger] map_of(after)[l]
        == wanted[l] by {
        let i = choose|i: int| 0 <= i < after.len() && #[trigger] labels_of(after)[i] == l;
        if i != at {
            lemma_ascending_distinct(labels_of(after), i, at);
        }
        if i < at {
            assert(labels_of(before)[i] == l);
        } else if i > at {
            assert(labels_of(before)[i - 1] == l);
        }
    }
}

/// Taking an entry out keeps the order and removes its label.
proof fn lemma_removed<T>(before: Seq<(String, T)>, at: int, after: Seq<(String, T)>)
    requires
        ascending(labels_of(before)),
        0 <= at < before.len(),
        after =~= before.remove(at),
    ensures
        ascending(labels_of(after)),
        map_of(after) == map_of(before).remove(before[at].0@),
{
    let key = before[at].0@;
    assert forall|i: int, j: int| 0 <= i < j < after.len() implies label_lt(
        #[trigger] labels_of(after)[i],
        #[trigger] labels_of(after)[j],
    ) by {
        let bi = if i < at {
            i
        } else {
            i + 1
        };
        let bj = if j < at {
            j
        } else {
            j + 1
        };
        assert(label_lt(labels_of(before)[bi], labels_of(before)[bj]));
    }
    lemma_map_of(before);
    lemma_map_of(after);
    lemma_label_lt_irreflexive(key);
    let wanted = map_of(before).remove(key);
    assert forall|l: Seq<char>| map_of(after).contains_key(l) <==> wanted.contains_key(l) by {
        if map_of(after).contains_key(l) {
            let i = choose|i: int| 0 <= i < after.len() && #[trigger] labels_of(after)[i] == l;
            let bi = if i < at {
                i
            } else {
                i + 1
            };
            if bi < at {
                assert(label_lt(labels_of(before)[bi], labels_of(before)[at]));
            } else {
                assert(label_lt(labels_of(before)[at], labels_of(before)[bi]));
            }
        }
        if wanted.contains_key(l) {
            let i = choose|i: int| 0 <= i < before.len() && #[trigger] labels_of(before)[i] == l;
            if i < at {
                assert(labels_of(after)[i] == l);
            } else {
                assert(labels_of(after)[i - 1] == l);
            }
        }
    }
    assert forall|l: Seq<char>| map_of(after).contains_key(l) implies #[trigger] map_of(after)[l]
        == wanted[l] by {
        let i = choose|i: int| 0 <= i < after.len() && #[trigger] labels_of(after)[i] == l;
        let bi = if i < at {
            i
        } else {
            i + 1
        };
        lemma_ascending_distinct(labels_of(before), bi, at);
    }
}

impl<T> LabelMap<T> {
    #[verifier::type_invariant]
    spec fn ordered(self) -> bool {
        ascending(labels_of(self.entries@))
    }

    /// A map without labels.
    pub fn new() -> (map: Self)
        ensures
            map@ == Map::<Seq<char>, T>::empty(),
    {
        LabelMap { entries: Vec::new() }
    }

    /// The number of labels.
    pub fn len(&self) -> (n: usize)
        ensures
            self@.dom().finite(),
            n == self@.len(),
    {
        proof {
            use_type_invariant(self);
            lemma_map_of(self.entries@);
        }
        self.entries.len()
    }

    /// The place of a label: the index of the first entry that does not come
    /// before it.
    fn position(&self, label: &str) -> (at: usize)
        ensures
            at <= self.entries@.len(),
            forall|i: int| 0 <= i < at ==> label_lt(#[trigger] labels_of(self.entries@)[i], label@),
            at < self.entries@.len() ==> !label_lt(labels_of(self.entries@)[at as int], label@),
    {
        let mut at: usize = 0;
        while at < self.entries.len() && label_less(self.entries[at].0.as_str(), label)
            invariant
                at <= self.entries@.len(),
                forall|i: int|
                    0 <= i < at ==> label_lt(#[trigger] labels_of(self.entries@)[i], label@),
            decreases self.entries@.len() - at,
        {
            at = at + 1;
        }
        at
    }

    /// The value under a label, if the map holds the label.
    pub fn get(&self, label: &str) -> (found: Option<&T>)
        ensures
            match found {
                Some(value) => self@.contains_key(label@) && *value == self@[label@],
                None => !self@.contains_key(label@),
            },
    {
        proof {
            use_type_invariant(self);
            lemma_map_of(self.entries@);
        }
        let at = self.position(label);
        if at < self.entries.len() && label_same(self.entries[at].0.as_str(), label) {
            Some(&self.entries[at].1)
        } else {
            proof {
                self.lemma_absent(at as int, label@);
            }
            None
        }
    }

    /// Puts a value under a label and gives back the value that was
    /// there, if there was one.
    pub fn insert(&mut self, label: String, value: T) -> (previous: Option<T>)
        ensures
            old(self)@.dom().finite(),
            final(self)@ == old(self)@.insert(label@, value),
            previous == (if old(self)@.contains_key(label@) {
                Some(old(self)@[label@])
            } else {
                None
            }),
    {
        proof {
            use_type_invariant(&*self);
            lemma_map_of(self.entries@);
        }
        let at = self.position(label.as_str());
        let ghost before = self.entries@;
        if at < self.entries.len() && label_same(self.entries[at].0.as_str(), label.as_str()) {
            let mut entries = Vec::new();
            std::mem::swap(&mut entries, &mut self.entries);
            let previous = entries.remove(at);
            entries.insert(at, (label, value));
            proof {
                lemma_replaced(before, at as int, entries@);
            }
            self.entries = entries;
            Some(previous.1)
        } else {
            proof {
                self.lemma_absent(at as int, label@);
            }
            let mut entries = Vec::new();
            std::mem::swap(&mut entries, &mut self.entries);
            entries.insert(at, (label, value));
            proof {
                lemma_inserted(before, at as int, entries@);
            }
            self.entries = entries;
            None
        }
    }

    /// Takes a label out of the map and gives back the label and its
    /// value, if the map held it.
    pub fn remove_entry(&mut self, label: &str) -> (removed: Option<(String, T)>)
        ensures
            old(self)@.dom().finite(),
            final(self)@ == old(self)@.remove(label@),
            match removed {
                Some(entry) => old(self)@.contains_key(label@) && entry.0@ == label@ && entry.1
                    == old(self)@[label@],
                None => !old(self)@.contains_key(label@),
            },
    {
        proof {
            use_type_invariant(&*self);
            lemma_map_of(self.entries@);
        }
        let at = self.position(label);
        let ghost before = self.entries@;
        if at < self.entries.len() && label_same(self.entries[at].0.as_str(), label) {
            let mut entries = Vec::new();
            std::mem::swap(&mut entries, &mut self.entries);
            let entry = entries.remove(at);
            proof {
                lemma_removed(before, at as int, entries@);
            }
            self.entries = entries;
            Some(entry)
        } else {
            proof {
                self.lemma_absent(at as int, label@);
            }
            None
        }
    }

    /// The labels in ascending order.
    pub fn keys(&self) -> (labels: Vec<String>)
        ensures
            self@.dom().finite(),
            labels@.len() == self@.len(),
            ascending(labels.deep_view()),
            forall|l: Seq<char>| self@.contains_key(l) <==> labels.deep_view().contains(l),
    {
        proof {
            use_type_invariant(self);
            lemma_map_of(self.entries@);
        }
        let mut labels: Vec<String> = Vec::new();
        let mut i: usize = 0;
        while i < self.entries.len()
            invariant
                i <= self.entries@.len(),
                labels@.len() == i,
                forall|k: int| 0 <= k < i ==> #[trigger] labels@[k]@ == labels_of(self.entries@)[k],
            decreases self.entries@.len() - i,
        {
            labels.push(self.entries[i].0.clone());
            i = i + 1;
        }
        assert(labels.deep_view() =~= labels_of(self.entries@));
        labels
    }

    /// A label that is not at its place is not in the map.
    proof fn lemma_absent(self, at: int, label: Seq<char>)
        requires
            self.ordered(),
            0 <= at <= self.entries@.len(),
            forall|i: int| 0 <= i < at ==> label_lt(#[trigger] labels_of(self.entries@)[i], label),
            at < self.entries@.len() ==> !label_lt(labels_of(self.entries@)[at], label)
                && labels_of(self.entries@)[at] != label,
        ensures
            forall|i: int|
                0 <= i < self.entries@.len() ==> #[trigger] labels_of(self.entries@)[i] != label,
            forall|i: int|
                at <= i < self.entries@.len() ==> label_lt(
                    label,
                    #[trigger] labels_of(self.entries@)[i],
                ),
            !self@.contains_key(label),
    {
        let labels = labels_of(self.entries@);
        lemma_map_of(self.entries@);
        lemma_label_lt_irreflexive(label);
        assert forall|i: int| at <= i < labels.len() implies label_lt(
            label,
            #[trigger] labels[i],
        ) by {
            lemma_label_lt_total(labels[at], label);
            if i > at {
                lemma_label_lt_transitive(label, labels[at], labels[i]);
            }
        }
    }
}

} // verus!
