//! Documents in TOML: sections of keys, as the `toml` crate reads them.

use std::collections::BTreeMap;
use vstd::prelude::*;
use crate::text::ascending;

verus! {

/// What a key of a section holds.
#[derive(Debug)]
pub enum Item {
    /// A string.
    Text(String),
    /// A boolean.
    Flag(bool),
    /// Anything else: a number, a date, an array or a table.
    Other,
}

/// A key of a section with what it holds.
#[derive(Debug)]
pub struct Entry {
    pub key: String,
    pub value: Item,
}

/// A top-level table of a document with its keys in their order.
#[derive(Debug)]
pub struct Section {
    pub name: String,
    pub entries: Vec<Entry>,
}

/// An [`Item`] with its text as a sequence of characters.
pub enum ItemView {
    Text(Seq<char>),
    Flag(bool),
    Other,
}

/// An [`Entry`] with its texts as sequences of characters.
pub struct EntryView {
    pub key: Seq<char>,
    pub value: ItemView,
}

/// A [`Section`] with its texts as sequences of characters.
pub struct SectionView {
    pub name: Seq<char>,
    pub entries: Seq<EntryView>,
}

impl DeepView for Item {
    type V = ItemView;

    open spec fn deep_view(&self) -> ItemView {
        match self {
            Item::Text(text) => ItemView::Text(text@),
            Item::Flag(flag) => ItemView::Flag(*flag),
            Item::Other => ItemView::Other,
        }
    }
}

impl DeepView for Entry {
    type V = EntryView;

    open spec fn deep_view(&self) -> EntryView {
        EntryView { key: self.key@, value: self.value.deep_view() }
    }
}

impl DeepView for Section {
    type V = SectionView;

    open spec fn deep_view(&self) -> SectionView {
        SectionView { name: self.name@, entries: self.entries.deep_view() }
    }
}

/// `toml::de::Error`: why a text could not be read. It is never looked
/// into.
#[verifier::external_type_specification]
#[verifier::external_body]
pub struct ExTomlError(toml::de::Error);

/// The sections that `toml::from_str` reads from a text as a table of
/// tables; none where the text is no TOML or its top level holds anything
/// but tables.
pub uninterp spec fn toml_sections(text: Seq<char>) -> Option<Seq<SectionView>>;

/// The names of the sections of a run of sections.
pub open spec fn names_of(document: Seq<SectionView>) -> Seq<Seq<char>> {
    Seq::new(document.len(), |i: int| document[i].name)
}

/// The keys of a run of entries, in their order.
pub open spec fn keys_of(entries: Seq<EntryView>) -> Seq<Seq<char>> {
    Seq::new(entries.len(), |i: int| entries[i].key)
}

/// The sections of a document stand in the ascending order of their names,
/// and the entries of each section in the ascending order of their keys.
pub open spec fn in_order(document: Seq<SectionView>) -> bool {
    &&& ascending(names_of(document))
    &&& forall|s: int|
        0 <= s < document.len() ==> ascending(keys_of((#[trigger] document[s]).entries))
}

/// `toml::from_str`, asked for a `BTreeMap` of `BTreeMap`s of `toml::Value`.
/// Not proved: what it reads depends on the text alone, and fails exactly
/// where there is nothing to read. The maps are walked in the order of
/// their keys, which for strings is the order of their code points, so
/// sections and keys come out ascending. A string value becomes
/// `Item::Text`, a boolean `Item::Flag`, any other `Item::Other`.
#[verifier::external_body]
pub(crate) fn parse_sections(text: &str) -> (parsed: Result<Vec<Section>, toml::de::Error>)
    ensures
        match parsed {
            Ok(sections) => toml_sections(text@) == Some(sections.deep_view()) && in_order(
                sections.deep_view(),
            ),
            Err(_) => toml_sections(text@) is None,
        },
{
    let tables: BTreeMap<String, BTreeMap<String, toml::Value>> = toml::from_str(text)?;
    Ok(tables.into_iter().map(|(name, keys)| Section {
        name,
        entries: keys.into_iter().map(|(key, value)| Entry { key, value: match value {
            toml::Value::String(text) => Item::Text(text),
            toml::Value::Boolean(flag) => Item::Flag(flag),
            _ => Item::Other,
        } }).collect(),
    }).collect())
}

/// The names of a run of parsed sections, in their order.
pub fn section_names(sections: &Vec<Section>) -> (names: Vec<String>)
    ensures
        names.deep_view() == names_of(sections.deep_view()),
{
    let mut names: Vec<String> = Vec::new();
    let mut i: usize = 0;
    while i < sections.len()
        invariant
            i <= sections@.len(),
            names@.len() == i,
            forall|k: int| 0 <= k < i ==> #[trigger] names@[k]@ == sections@[k].name@,
        decreases sections@.len() - i,
    {
        names.push(sections[i].name.clone());
        i = i + 1;
    }
    names
}

/// The titles of a TOML document: the names of its sections in ascending
/// order. None where the text is no document of sections.
pub fn toml_titles(input: String) -> (titles: Option<Vec<String>>)
    ensures
        match toml_sections(input@) {
            Some(document) => titles is Some && titles->0.deep_view() == names_of(document)
                && ascending(names_of(document)),
            None => titles is None,
        },
{
    match parse_sections(input.as_str()) {
        Ok(sections) => Some(section_names(&sections)),
        Err(_) => None,
    }
}

} // verus!
