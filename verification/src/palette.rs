//! A palette: a named collection of colours by label, with the two colours
//! that serve as its background and its foreground.

use std::path::PathBuf;
use uuid::Uuid;
use vstd::prelude::*;
use crate::color::Color;
use crate::label_map::LabelMap;
use crate::text::{
    ascending, label_lt, label_same, lemma_label_lt_irreflexive, lemma_label_lt_transitive,
    lowercase_of, trimmed_of,
};

verus! {

/// `std::path::PathBuf`: a palette carries one through and never looks
/// into it.
#[verifier::external_type_specification]
#[verifier::external_body]
pub struct ExPathBuf(PathBuf);

/// `uuid::Uuid`: a palette carries one through and never looks into it.
#[verifier::external_type_specification]
#[verifier::external_body]
pub struct ExUuid(Uuid);

/// `uuid::Uuid::now_v6` makes an identifier from the system clock, a
/// counter of the process and the node given. Nothing is claimed of the
/// identifier: two calls may give any two values. The call panics where
/// the system clock stands before 1970, which no argument decides.
pub assume_specification[ Uuid::now_v6 ](node_id: &[u8; 6]) -> (id: Uuid)
;

/// The colours of a palette by label.
pub type ColorMap = LabelMap<Color>;

/// A named collection of colours.
#[derive(Debug)]
pub struct Palette {
    /// The name on display.
    pub name: String,
    /// An identifier made when the palette is.
    pub uuid: Uuid,
    /// The colours by label.
    pub colors: ColorMap,
    /// The file that the palette was read from, if any.
    pub filename: Option<PathBuf>,
}

/// What a palette holds for its readers: its name and its colours.
pub struct PaletteView {
    pub name: Seq<char>,
    pub colors: Map<Seq<char>, Color>,
}

impl DeepView for Palette {
    type V = PaletteView;

    open spec fn deep_view(&self) -> PaletteView {
        PaletteView { name: self.name@, colors: self.colors@ }
    }
}

/// The two colours of a presentation, both fully opaque.
#[derive(Debug, PartialEq, Eq, Clone, Copy, Structural)]
pub struct ColorScheme {
    pub foreground: Color,
    pub background: Color,
}

/// A colour with its label, as a presentation lists it.
#[derive(Debug)]
pub struct ColorType {
    pub name: String,
    pub color: Color,
}

/// A palette as a presentation lists it: its name, and its colours in the
/// ascending order of their labels.
#[derive(Debug)]
pub struct PaletteType {
    pub name: String,
    pub colors: Vec<ColorType>,
}

/// The labels of listed colours, in their order.
pub open spec fn listed_names(colors: Seq<ColorType>) -> Seq<Seq<char>> {
    Seq::new(colors.len(), |i: int| colors[i].name@)
}

/// What a label can mark its colour as.
#[derive(Debug, PartialEq, Eq, Clone, Copy, Structural)]
pub enum Role {
    Background,
    Foreground,
}

/// Whether a text is one of the names of a role: `bg` and `background` for
/// the background; `fg`, `foreground` and `text` for the foreground.
pub open spec fn is_alias(name: Seq<char>, role: Role) -> bool {
    match role {
        Role::Background => name == "bg"@ || name == "background"@,
        Role::Foreground => name == "fg"@ || name == "foreground"@ || name == "text"@,
    }
}

/// Whether a label marks its colour for a role: in lower case and without
/// the white space around it, the label is one of the role's names.
pub open spec fn has_role(label: Seq<char>, role: Role) -> bool {
    is_alias(trimmed_of(lowercase_of(label)), role)
}

/// Whether `label` is the first label of the map, in ascending order, that
/// marks its colour for the role.
pub open spec fn leads(colors: Map<Seq<char>, Color>, role: Role, label: Seq<char>) -> bool {
    &&& colors.contains_key(label)
    &&& has_role(label, role)
    &&& forall|other: Seq<char>|
        colors.contains_key(other) && #[trigger] has_role(other, role) && other != label
            ==> label_lt(label, other)
}

/// The colour of a role: that of the first label, in ascending order, that
/// marks its colour for the role; none where no label does.
pub open spec fn role_color(colors: Map<Seq<char>, Color>, role: Role) -> Option<Color> {
    if exists|label: Seq<char>| leads(colors, role, label) {
        Some(colors[choose|label: Seq<char>| leads(colors, role, label)])
    } else {
        None
    }
}

/// The scheme of a map of colours: its foreground and background made
/// opaque, where it has both.
pub open spec fn scheme_of(colors: Map<Seq<char>, Color>) -> Option<ColorScheme> {
    match (role_color(colors, Role::Background), role_color(colors, Role::Foreground)) {
        (Some(background), Some(foreground)) => Some(
            ColorScheme {
                foreground: Color { opacity: 255, ..foreground },
                background: Color { opacity: 255, ..background },
            },
        ),
        _ => None,
    }
}

/// At most one label leads for a role.
pub proof fn lemma_one_leader(
    colors: Map<Seq<char>, Color>,
    role: Role,
    first: Seq<char>,
    second: Seq<char>,
)
    requires
        leads(colors, role, first),
        leads(colors, role, second),
    ensures
        first == second,
{
    if first != second {
        lemma_label_lt_transitive(first, second, first);
        lemma_label_lt_irreflexive(first);
    }
}

/// A map without a label for a role has no colour for it.
pub proof fn law_no_label_no_color(colors: Map<Seq<char>, Color>, role: Role)
    requires
        forall|label: Seq<char>| colors.contains_key(label) ==> !has_role(label, role),
    ensures
        role_color(colors, role) is None,
{
}

/// Whether a text, already in lower case and trimmed, is one of the names
/// of a role.
pub fn is_role_name(name: &str, role: Role) -> (named: bool)
    ensures
        named == is_alias(name@, role),
{
    match role {
        Role::Background => label_same(name, "bg") || label_same(name, "background"),
        Role::Foreground => label_same(name, "fg") || label_same(name, "foreground")
            || label_same(name, "text"),
    }
}

/// Whether a label marks its colour for a role.
pub fn label_has_role(label: &str, role: Role) -> (marked: bool)
    ensures
        marked == has_role(label@, role),
{
    let lower = label.to_lowercase();
    is_role_name(lower.as_str().trim(), role)
}

impl Color {
    /// The colour under a label, as a presentation lists it.
    pub fn to_colortype(&self, name: &str) -> (listed: ColorType)
        ensures
            listed.name@ == name@,
            listed.color == *self,
    {
        ColorType { name: name.to_owned(), color: *self }
    }
}

impl Palette {
    /// An empty palette with a fresh identifier.
    pub fn new(name: &str, filename: Option<PathBuf>) -> (palette: Self)
        ensures
            palette.name@ == name@,
            palette.colors@ == Map::<Seq<char>, Color>::empty(),
            palette.filename == filename,
    {
        let node: [u8; 6] = [1, 2, 3, 4, 5, 6];
        let uuid = Uuid::now_v6(&node);
        Palette { name: name.to_owned(), uuid, colors: ColorMap::new(), filename }
    }

    /// Puts a colour under a label. Gives back the colour that the label
    /// had; the palette grows by one where it had none.
    pub fn add_color(&mut self, name: String, color: Color) -> (previous: Option<Color>)
        ensures
            old(self).colors@.dom().finite(),
            final(self).colors@ == old(self).colors@.insert(name@, color),
            previous == (if old(self).colors@.contains_key(name@) {
                Some(old(self).colors@[name@])
            } else {
                None
            }),
            final(self).colors@.len() == (if old(self).colors@.contains_key(name@) {
                old(self).colors@.len()
            } else {
                old(self).colors@.len() + 1
            }),
            final(self).name == old(self).name,
            final(self).uuid == old(self).uuid,
            final(self).filename == old(self).filename,
    {
        self.colors.insert(name, color)
    }

    /// Takes a label out of the palette and gives it back with its colour,
    /// if the palette held it.
    pub fn remove_color(&mut self, name: &str) -> (removed: Option<(String, Color)>)
        ensures
            old(self).colors@.dom().finite(),
            final(self).colors@ == old(self).colors@.remove(name@),
            match removed {
                Some(entry) => old(self).colors@.contains_key(name@) && entry.0@ == name@
                    && entry.1 == old(self).colors@[name@],
                None => !old(self).colors@.contains_key(name@),
            },
            final(self).name == old(self).name,
            final(self).uuid == old(self).uuid,
            final(self).filename == old(self).filename,
    {
        self.colors.remove_entry(name)
    }

    /// The colour under a label, if the palette holds the label.
    pub fn get_color(&self, name: &str) -> (found: Option<&Color>)
        ensures
            match found {
                Some(color) => self.colors@.contains_key(name@) && *color == self.colors@[name@],
                None => !self.colors@.contains_key(name@),
            },
    {
        self.colors.get(name)
    }

    /// The labels of the palette in ascending order.
    pub fn color_names(&self) -> (names: Vec<String>)
        ensures
            self.colors@.dom().finite(),
            names@.len() == self.colors@.len(),
            ascending(names.deep_view()),
            forall|label: Seq<char>|
                self.colors@.contains_key(label) <==> names.deep_view().contains(label),
    {
        self.colors.keys()
    }

    /// The number of colours.
    pub fn len(&self) -> (n: usize)
        ensures
            self.colors@.dom().finite(),
            n == self.colors@.len(),
    {
        self.colors.len()
    }

    /// The colour of a role, if a label marks one.
    fn color_of_role(&self, role: Role) -> (found: Option<Color>)
        ensures
            found == role_color(self.colors@, role),
            found is None <==> forall|label: Seq<char>|
                self.colors@.contains_key(label) ==> !has_role(label, role),
    {
        let names = self.color_names();
        let mut i: usize = 0;
        while i < names.len()
            invariant
                i <= names@.len(),
                ascending(names.deep_view()),
                forall|label: Seq<char>|
                    self.colors@.contains_key(label) <==> names.deep_view().contains(label),
                forall|k: int| 0 <= k < i ==> !has_role(#[trigger] names.deep_view()[k], role),
            decreases names@.len() - i,
        {
            if label_has_role(names[i].as_str(), role) {
                let ghost label = names@[i as int]@;
                assert(names.deep_view()[i as int] == label);
                assert(names.deep_view().contains(label));
                proof {
                    assert forall|other: Seq<char>|
                        self.colors@.contains_key(other) && #[trigger] has_role(other, role)
                            && other != label implies label_lt(label, other) by {
                        assert(names.deep_view().contains(other));
                        let k = names.deep_view().index_of(other);
                        assert(k > i);
                        assert(label_lt(names.deep_view()[i as int], names.deep_view()[k]));
                    }
                    assert(leads(self.colors@, role, label));
                    let chosen = choose|l: Seq<char>| leads(self.colors@, role, l);
                    lemma_one_leader(self.colors@, role, label, chosen);
                }
                return match self.get_color(names[i].as_str()) {
                    Some(color) => Some(*color),
                    None => None,
                };
            }
            i = i + 1;
        }
        proof {
            assert forall|label: Seq<char>| self.colors@.contains_key(label) implies !has_role(
                label,
                role,
            ) by {
                assert(names.deep_view().contains(label));
                let k = names.deep_view().index_of(label);
                assert(!has_role(names.deep_view()[k], role));
            }
        }
        None
    }

    /// The background colour: that of the first label, in ascending order,
    /// that reads `bg` or `background` in lower case and without the white
    /// space around it. None where the palette has no such label.
    pub fn background(&self) -> (found: Option<Color>)
        ensures
            found == role_color(self.colors@, Role::Background),
            found is None <==> forall|label: Seq<char>|
                self.colors@.contains_key(label) ==> !has_role(label, Role::Background),
    {
        self.color_of_role(Role::Background)
    }

    /// The foreground colour: that of the first label, in ascending order,
    /// that reads `fg`, `foreground` or `text` in lower case and without
    /// the white space around it. None where the palette has no such label.
    pub fn foreground(&self) -> (found: Option<Color>)
        ensures
            found == role_color(self.colors@, Role::Foreground),
            found is None <==> forall|label: Seq<char>|
                self.colors@.contains_key(label) ==> !has_role(label, Role::Foreground),
    {
        self.color_of_role(Role::Foreground)
    }

    /// The foreground and background of the palette, made opaque. None
    /// unless the palette has both.
    pub fn to_slint_theme(&self) -> (scheme: Option<ColorScheme>)
        ensures
            scheme == scheme_of(self.colors@),
    {
        let background = match self.background() {
            None => return None,
            Some(bg) => bg.to_opaque(),
        };
        let foreground = match self.foreground() {
            None => return None,
            Some(fg) => fg.to_opaque(),
        };
        Some(ColorScheme { foreground, background })
    }

    /// The palette as a presentation lists it: every label once, in
    /// ascending order, each with its colour.
    pub fn to_slint(&self) -> (listed: PaletteType)
        ensures
            listed.name@ == self.name@,
            listed.colors@.len() == self.colors@.len(),
            ascending(listed_names(listed.colors@)),
            forall|label: Seq<char>|
                self.colors@.contains_key(label) <==> listed_names(listed.colors@).contains(label),
            forall|i: int|
                0 <= i < listed.colors@.len() ==> (#[trigger] listed.colors@[i]).color
                    == self.colors@[listed.colors@[i].name@],
    {
        let names = self.color_names();
        let mut colors: Vec<ColorType> = Vec::new();
        let mut i: usize = 0;
        while i < names.len()
            invariant
                i <= names@.len(),
                colors@.len() == i,
                forall|label: Seq<char>|
                    self.colors@.contains_key(label) <==> names.deep_view().contains(label),
                forall|k: int| 0 <= k < i ==> (#[trigger] colors@[k]).name@ == names@[k]@,
                forall|k: int|
                    0 <= k < i ==> (#[trigger] colors@[k]).color == self.colors@[names@[k]@],
            decreases names@.len() - i,
        {
            assert(names.deep_view().contains(names.deep_view()[i as int]));
            if let Some(color) = self.get_color(names[i].as_str()) {
                colors.push(color.to_colortype(names[i].as_str()));
            }
            i = i + 1;
        }
        assert(listed_names(colors@) =~= names.deep_view());
        PaletteType { name: self.name.clone(), colors }
    }
}

} // verus!
