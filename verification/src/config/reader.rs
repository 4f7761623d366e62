//! Reading the program's settings and its palettes from the text of their
//! documents.

use vstd::prelude::*;
use crate::color::{Color, ColorError};
use crate::config::merge::{find_key, find_section, lookup, merge, merge_documents};
use crate::hex::hex_color;
use crate::palette::{Palette, PaletteView};
use crate::parser::{
    parse_sections, toml_sections, Entry, EntryView, Item, ItemView, Section, SectionView,
};

verus! {

/// The settings that a program starts from.
pub const DEFAULT_SETTINGS: &'static str = "
[General]
test = false
font = \"CaskaydiaCove NF\"
fontsize = \"14px\"
foreground = \"#FFF\"
background = \"#000\"
";

/// Why no palettes were loaded.
#[derive(Debug, PartialEq, Eq, Clone, Copy, Structural)]
pub enum LoadError {
    /// A document is no TOML, or not one of sections.
    Unreadable,
    /// The documents hold no section: there are no palettes.
    NoPalettes,
    /// A key of a section holds no colour.
    Color(ColorError),
}

/// The settings of the program: the defaults with the program's own
/// document laid over them.
#[derive(Debug)]
pub struct Settings {
    pub sections: Vec<Section>,
}

impl DeepView for Settings {
    type V = Seq<SectionView>;

    open spec fn deep_view(&self) -> Seq<SectionView> {
        self.sections.deep_view()
    }
}

/// A setting as text: a string is its own text, a boolean reads `true` or
/// `false`, and nothing else has a text.
pub open spec fn item_text(item: ItemView) -> Option<Seq<char>> {
    match item {
        ItemView::Text(text) => Some(text),
        ItemView::Flag(flag) => Some(
            if flag {
                "true"@
            } else {
                "false"@
            },
        ),
        ItemView::Other => None,
    }
}

/// The text of a setting, where the document has the setting and it has a
/// text.
pub open spec fn setting(document: Seq<SectionView>, section: Seq<char>, key: Seq<char>) -> Option<
    Seq<char>,
> {
    match lookup(document, section, key) {
        Some(item) => item_text(item),
        None => None,
    }
}

/// The colour that an entry of a palette holds: its value must be a string
/// that stands for a colour.
pub open spec fn entry_color(entry: EntryView) -> Result<Color, ColorError> {
    match entry.value {
        ItemView::Text(text) => hex_color(text),
        _ => Err(ColorError::NotText),
    }
}

/// The colours of a section by label. The first entry without a colour
/// fails the whole section.
pub open spec fn section_colors(entries: Seq<EntryView>) -> Result<
    Map<Seq<char>, Color>,
    ColorError,
>
    decreases entries.len(),
{
    if entries.len() == 0 {
        Ok(Map::empty())
    } else {
        match section_colors(entries.drop_last()) {
            Err(error) => Err(error),
            Ok(colors) => match entry_color(entries.last()) {
                Err(error) => Err(error),
                Ok(color) => Ok(colors.insert(entries.last().key, color)),
            },
        }
    }
}

/// The palettes of a document, one for each section and in their order.
/// The first section without a colour for one of its keys fails them all.
pub open spec fn palettes_of(document: Seq<SectionView>) -> Result<Seq<PaletteView>, ColorError>
    decreases document.len(),
{
    if document.len() == 0 {
        Ok(Seq::empty())
    } else {
        match palettes_of(document.drop_last()) {
            Err(error) => Err(error),
            Ok(palettes) => match section_colors(document.last().entries) {
                Err(error) => Err(error),
                Ok(colors) => Ok(
                    palettes.push(PaletteView { name: document.last().name, colors }),
                ),
            },
        }
    }
}

/// Documents laid over one another in their order, the first one lowest.
pub open spec fn merge_all(documents: Seq<Seq<SectionView>>) -> Seq<SectionView>
    decreases documents.len(),
{
    if documents.len() == 0 {
        Seq::empty()
    } else {
        merge(merge_all(documents.drop_last()), documents.last())
    }
}

/// The palettes of documents that were read: the documents are laid over
/// one another, and each section of the result is a palette. Without any
/// section there are no palettes.
pub open spec fn palettes_of_documents(documents: Seq<Seq<SectionView>>) -> Result<
    Seq<PaletteView>,
    LoadError,
> {
    let merged = merge_all(documents);
    if merged.len() == 0 {
        Err(LoadError::NoPalettes)
    } else {
        match palettes_of(merged) {
            Ok(palettes) => Ok(palettes),
            Err(error) => Err(LoadError::Color(error)),
        }
    }
}

/// What the texts of documents read as; none where one of them reads as
/// nothing.
pub open spec fn read_all(texts: Seq<Seq<char>>) -> Option<Seq<Seq<SectionView>>>
    decreases texts.len(),
{
    if texts.len() == 0 {
        Some(Seq::empty())
    } else {
        match (read_all(texts.drop_last()), toml_sections(texts.last())) {
            (Some(documents), Some(document)) => Some(documents.push(document)),
            _ => None,
        }
    }
}

/// The palettes in the texts of documents.
pub open spec fn palettes_in(texts: Seq<Seq<char>>) -> Result<Seq<PaletteView>, LoadError> {
    match read_all(texts) {
        None => Err(LoadError::Unreadable),
        Some(documents) => palettes_of_documents(documents),
    }
}

impl Item {
    /// The item as text, if it has one.
    pub fn text(&self) -> (text: Option<String>)
        ensures
            text.deep_view() == item_text(self.deep_view()),
    {
        match self {
            Item::Text(text) => Some(text.clone()),
            Item::Flag(flag) => Some(
                if *flag {
                    "true".to_owned()
                } else {
                    "false".to_owned()
                },
            ),
            Item::Other => None,
        }
    }
}

impl Entry {
    /// The colour that the entry holds.
    pub fn color(&self) -> (color: Result<Color, ColorError>)
        ensures
            color == entry_color(self.deep_view()),
    {
        match &self.value {
            Item::Text(text) => Color::try_from_hex(text.as_str()),
            _ => Err(ColorError::NotText),
        }
    }
}

impl Settings {
    /// The text of a setting: what the first section of that name holds
    /// under the key.
    pub fn get(&self, section: &str, key: &str) -> (text: Option<String>)
        ensures
            text.deep_view() == setting(self.deep_view(), section@, key@),
    {
        match find_section(&self.sections, section) {
            None => None,
            Some(s) => match find_key(&self.sections[s].entries, key) {
                None => None,
                Some(e) => self.sections[s].entries[e].value.text(),
            },
        }
    }
}

/// Reads the settings of the program from the text of its document, laid
/// over the defaults. None where either reads as nothing.
pub fn read_program_config_file(contents: &str) -> (settings: Option<Settings>)
    ensures
        match (toml_sections(DEFAULT_SETTINGS@), toml_sections(contents@)) {
            (Some(defaults), Some(document)) => settings is Some && settings->0.deep_view()
                == merge(defaults, document),
            _ => settings is None,
        },
{
    let defaults = match parse_sections(DEFAULT_SETTINGS) {
        Ok(sections) => sections,
        Err(_) => {
            return None;
        },
    };
    let document = match parse_sections(contents) {
        Ok(sections) => sections,
        Err(_) => {
            return None;
        },
    };
    Some(Settings { sections: merge_documents(defaults, &document) })
}

/// The palette of a section: its name, and a colour for each of its keys.
pub fn palette_from_section(section: &Section) -> (palette: Result<Palette, ColorError>)
    ensures
        match section_colors(section.deep_view().entries) {
            Ok(colors) => palette is Ok && palette->Ok_0.deep_view() == (PaletteView {
                name: section.name@,
                colors,
            }) && palette->Ok_0.filename is None,
            Err(error) => palette == Err::<Palette, ColorError>(error),
        },
{
    let mut palette = Palette::new(section.name.as_str(), None);
    let ghost entries = section.deep_view().entries;
    let mut i: usize = 0;
    while i < section.entries.len()
        invariant
            i <= section.entries@.len(),
            entries == section.deep_view().entries,
            palette.name@ == section.name@,
            palette.filename is None,
            section_colors(entries.take(i as int)) == Ok::<Map<Seq<char>, Color>, ColorError>(
                palette.colors@,
            ),
        decreases section.entries@.len() - i,
    {
        proof {
            let upto = entries.take(i as int + 1);
            assert(upto.drop_last() =~= entries.take(i as int));
        }
        match section.entries[i].color() {
            Ok(color) => {
                palette.add_color(section.entries[i].key.clone(), color);
            },
            Err(error) => {
                proof {
                    lemma_section_colors_fail(entries, i as int + 1);
                }
                return Err(error);
            },
        }
        i = i + 1;
    }
    assert(entries.take(section.entries@.len() as int) =~= entries);
    Ok(palette)
}

/// Once a run of entries has failed, the longer runs fail alike.
proof fn lemma_section_colors_fail(entries: Seq<EntryView>, upto: int)
    requires
        0 <= upto <= entries.len(),
        section_colors(entries.take(upto)) is Err,
    ensures
        section_colors(entries) == section_colors(entries.take(upto)),
    decreases entries.len() - upto,
{
    if upto < entries.len() {
        let longer = entries.take(upto + 1);
        assert(longer.drop_last() =~= entries.take(upto));
        lemma_section_colors_fail(entries, upto + 1);
    } else {
        assert(entries.take(upto) =~= entries);
    }
}

/// Once a run of sections has failed, the longer runs fail alike.
proof fn lemma_palettes_of_fail(document: Seq<SectionView>, upto: int)
    requires
        0 <= upto <= document.len(),
        palettes_of(document.take(upto)) is Err,
    ensures
        palettes_of(document) == palettes_of(document.take(upto)),
    decreases document.len() - upto,
{
    if upto < document.len() {
        let longer = document.take(upto + 1);
        assert(longer.drop_last() =~= document.take(upto));
        lemma_palettes_of_fail(document, upto + 1);
    } else {
        assert(document.take(upto) =~= document);
    }
}

/// The palettes of a document, one for each of its sections.
pub fn palettes_from_sections(sections: &Vec<Section>) -> (palettes: Result<
    Vec<Palette>,
    ColorError,
>)
    ensures
        match palettes_of(sections.deep_view()) {
            Ok(expected) => palettes is Ok && palettes->Ok_0.deep_view() == expected && forall|
                i: int,
            |
                0 <= i < palettes->Ok_0@.len() ==> (#[trigger] palettes->Ok_0@[i]).filename
                    is None,
            Err(error) => palettes == Err::<Vec<Palette>, ColorError>(error),
        },
{
    let ghost document = sections.deep_view();
    let mut palettes: Vec<Palette> = Vec::new();
    assert(palettes.deep_view() =~= Seq::<PaletteView>::empty());
    let mut i: usize = 0;
    while i < sections.len()
        invariant
            i <= sections@.len(),
            document == sections.deep_view(),
            palettes_of(document.take(i as int)) == Ok::<Seq<PaletteView>, ColorError>(
                palettes.deep_view(),
            ),
            forall|k: int| 0 <= k < palettes@.len() ==> (#[trigger] palettes@[k]).filename is None,
        decreases sections@.len() - i,
    {
        proof {
            let upto = document.take(i as int + 1);
            assert(upto.drop_last() =~= document.take(i as int));
        }
        let ghost before = palettes.deep_view();
        match palette_from_section(&sections[i]) {
            Ok(palette) => {
                palettes.push(palette);
                assert(palettes.deep_view() =~= before.push(palette.deep_view()));
            },
            Err(error) => {
                proof {
                    lemma_palettes_of_fail(document, i as int + 1);
                }
                return Err(error);
            },
        }
        i = i + 1;
    }
    assert(document.take(sections@.len() as int) =~= document);
    Ok(palettes)
}

/// The palettes of documents that were read.
pub fn palettes_from_documents(documents: &Vec<Vec<Section>>) -> (palettes: Result<
    Vec<Palette>,
    LoadError,
>)
    ensures
        match palettes_of_documents(documents.deep_view()) {
            Ok(expected) => palettes is Ok && palettes->Ok_0.deep_view() == expected,
            Err(error) => palettes == Err::<Vec<Palette>, LoadError>(error),
        },
{
    let mut merged: Vec<Section> = Vec::new();
    let mut i: usize = 0;
    while i < documents.len()
        invariant
            i <= documents@.len(),
            merged.deep_view() == merge_all(documents.deep_view().take(i as int)),
        decreases documents@.len() - i,
    {
        proof {
            let upto = documents.deep_view().take(i as int + 1);
            assert(upto.drop_last() =~= documents.deep_view().take(i as int));
        }
        merged = merge_documents(merged, &documents[i]);
        i = i + 1;
    }
    assert(documents.deep_view().take(documents@.len() as int) =~= documents.deep_view());
    if merged.len() == 0 {
        return Err(LoadError::NoPalettes);
    }
    match palettes_from_sections(&merged) {
        Ok(palettes) => Ok(palettes),
        Err(error) => Err(LoadError::Color(error)),
    }
}

/// Reads the palettes from the texts of their documents, given in the order
/// in which the documents were found. The documents are laid over one
/// another, and each section of the result becomes a palette named after
/// it, with a colour for each of its keys.
pub fn read_colour_palettes(documents: &Vec<String>) -> (palettes: Result<Vec<Palette>, LoadError>)
    ensures
        match palettes_in(documents.deep_view()) {
            Ok(expected) => palettes is Ok && palettes->Ok_0.deep_view() == expected,
            Err(error) => palettes == Err::<Vec<Palette>, LoadError>(error),
        },
        documents@.len() == 0 ==> palettes == Err::<Vec<Palette>, LoadError>(LoadError::NoPalettes),
{
    let mut read: Vec<Vec<Section>> = Vec::new();
    let mut i: usize = 0;
    while i < documents.len()
        invariant
            i <= documents@.len(),
            read_all(documents.deep_view().take(i as int)) == Some(read.deep_view()),
        decreases documents@.len() - i,
    {
        proof {
            let upto = documents.deep_view().take(i as int + 1);
            assert(upto.drop_last() =~= documents.deep_view().take(i as int));
        }
        match parse_sections(documents[i].as_str()) {
            Ok(sections) => {
                read.push(sections);
            },
            Err(_) => {
                proof {
                    lemma_read_all_fail(documents.deep_view(), i as int + 1);
                }
                return Err(LoadError::Unreadable);
            },
        }
        i = i + 1;
    }
    assert(documents.deep_view().take(documents@.len() as int) =~= documents.deep_view());
    palettes_from_documents(&read)
}

/// Once a run of texts has read as nothing, the longer runs do.
proof fn lemma_read_all_fail(texts: Seq<Seq<char>>, upto: int)
    requires
        0 <= upto <= texts.len(),
        read_all(texts.take(upto)) is None,
    ensures
        read_all(texts) is None,
    decreases texts.len() - upto,
{
    if upto < texts.len() {
        let longer = texts.take(upto + 1);
        assert(longer.drop_last() =~= texts.take(upto));
        lemma_read_all_fail(texts, upto + 1);
    } else {
        assert(texts.take(upto) =~= texts);
    }
}

} // verus!
