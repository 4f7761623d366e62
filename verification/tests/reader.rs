use color_palette::color::{Color, ColorError};
use color_palette::config::merge::{find_key, find_section, merge_documents};
use color_palette::config::reader::{
    palette_from_section, palettes_from_documents, palettes_from_sections, read_colour_palettes,
    read_program_config_file, LoadError, DEFAULT_SETTINGS,
};
use color_palette::config::{Config, DEFAULT_CONFIG_PATH, PROGRAM_NAME};
use color_palette::parser::{section_names, toml_titles, Entry, Item, Section};

fn text(key: &str, value: &str) -> Entry {
    Entry { key: key.to_string(), value: Item::Text(value.to_string()) }
}

fn section(name: &str, entries: Vec<Entry>) -> Section {
    Section { name: name.to_string(), entries }
}

fn shape(document: &Vec<Section>) -> Vec<(String, Vec<(String, String)>)> {
    document
        .iter()
        .map(|s| {
            let entries = s
                .entries
                .iter()
                .map(|e| (e.key.clone(), format!("{:?}", e.value)))
                .collect();
            (s.name.clone(), entries)
        })
        .collect()
}

#[test]
fn test_toml_title() {
    let input: String = "[\"Color Scheme Title\"]\nbackground = \"#0000017D\"\nforeground = \"#FFFFFF\"\ncolor0 = \"#110f1e\"\ncolor1 = \"#C14039\"\n".to_string();
    assert_eq!(toml_titles(input), Some(vec!["Color Scheme Title".to_string()]));
}

#[test]
fn toml_titles_come_in_ascending_order() {
    let input = "[b]\nx = \"1\"\n[a]\ny = \"2\"\n[c]\n".to_string();
    assert_eq!(toml_titles(input), Some(vec!["a".to_string(), "b".to_string(), "c".to_string()]));
    assert_eq!(toml_titles(String::new()), Some(vec![]));
}

#[test]
fn toml_titles_of_no_document() {
    assert_eq!(toml_titles("[a".to_string()), None);
    assert_eq!(toml_titles("a = 1".to_string()), None);
    assert_eq!(toml_titles("[a]\nx = 1\n[a]\ny = 2\n".to_string()), None);
}

#[test]
fn section_names_keep_their_order() {
    let document = vec![section("z", vec![]), section("a", vec![]), section("z", vec![])];
    assert_eq!(section_names(&document), vec!["z", "a", "z"]);
}

#[test]
fn one_document_gives_one_palette() {
    let documents = vec!["[Scheme]\nbg=\"#000000\"\nfg=\"#FFFFFF\"".to_string()];
    let palettes = read_colour_palettes(&documents).unwrap();
    assert_eq!(palettes.len(), 1);
    assert_eq!(palettes[0].name, "Scheme");
    assert_eq!(palettes[0].len(), 2);
    assert_eq!(palettes[0].filename, None);
    assert_eq!(palettes[0].get_color("bg").unwrap().hex(), "#000000");
    assert_eq!(palettes[0].get_color("fg").unwrap().hex(), "#FFFFFF");
    assert_eq!(palettes[0].color_names(), vec!["bg", "fg"]);
}

#[test]
fn no_documents_are_no_palettes() {
    assert_eq!(read_colour_palettes(&vec![]).unwrap_err(), LoadError::NoPalettes);
    assert_eq!(read_colour_palettes(&vec![String::new()]).unwrap_err(), LoadError::NoPalettes);
    assert_eq!(
        read_colour_palettes(&vec!["# nothing\n".to_string(), "\n".to_string()]).unwrap_err(),
        LoadError::NoPalettes
    );
    assert_eq!(palettes_from_documents(&vec![]).unwrap_err(), LoadError::NoPalettes);
    assert_eq!(palettes_from_documents(&vec![vec![], vec![]]).unwrap_err(), LoadError::NoPalettes);
}

#[test]
fn a_document_that_is_no_toml_is_unreadable() {
    let good = "[Scheme]\nbg=\"#000\"".to_string();
    assert_eq!(
        read_colour_palettes(&vec![good.clone(), "[broken".to_string()]).unwrap_err(),
        LoadError::Unreadable
    );
    assert_eq!(
        read_colour_palettes(&vec!["top = \"#000\"".to_string()]).unwrap_err(),
        LoadError::Unreadable
    );
    assert_eq!(
        read_colour_palettes(&vec!["[a]\nx = \"zzz\"".to_string(), "= 1".to_string()]).unwrap_err(),
        LoadError::Unreadable
    );
}

#[test]
fn a_value_that_is_no_colour_fails_the_load() {
    let load = |text: &str| read_colour_palettes(&vec![text.to_string()]).unwrap_err();
    assert_eq!(load("[a]\nx = \"#12345\""), LoadError::Color(ColorError::WrongSize));
    assert_eq!(load("[a]\nx = \"#12345G\""), LoadError::Color(ColorError::InvalidDigit));
    assert_eq!(load("[a]\nx = \"#GGG\""), LoadError::Color(ColorError::InvalidDigit));
    assert_eq!(load("[a]\nx = true"), LoadError::Color(ColorError::NotText));
    assert_eq!(load("[a]\nx = 123"), LoadError::Color(ColorError::NotText));
    assert_eq!(load("[a]\nok = \"#000\"\n[b]\nx = \"red\""), LoadError::Color(ColorError::InvalidDigit));
}

#[test]
fn the_first_bad_value_is_reported() {
    let bad = section("s", vec![text("a", "#000"), text("b", "#GGG"), text("c", "#1")]);
    assert_eq!(palette_from_section(&bad).unwrap_err(), ColorError::InvalidDigit);
    let flagged = section("s", vec![Entry { key: "a".to_string(), value: Item::Flag(true) }, text("b", "#1")]);
    assert_eq!(palette_from_section(&flagged).unwrap_err(), ColorError::NotText);
    let other = section("s", vec![Entry { key: "a".to_string(), value: Item::Other }]);
    assert_eq!(palette_from_section(&other).unwrap_err(), ColorError::NotText);
    let sections = vec![section("one", vec![text("a", "#1")]), bad];
    assert_eq!(palettes_from_sections(&sections).unwrap_err(), ColorError::WrongSize);
}

#[test]
fn a_section_becomes_a_palette() {
    let palette = palette_from_section(&section(
        "Night",
        vec![text("sky", "#000080"), text("moon", "#EEE"), text("sky", "#00000080")],
    ))
    .unwrap();
    assert_eq!(palette.name, "Night");
    assert_eq!(palette.filename, None);
    assert_eq!(palette.color_names(), vec!["moon", "sky"]);
    assert_eq!(palette.get_color("sky"), Some(&Color::new(0, 0, 0, 128)));
    assert_eq!(palette.get_color("moon"), Some(&Color::new_solid(238, 238, 238)));
    let empty = palette_from_section(&section("Empty", vec![])).unwrap();
    assert_eq!(empty.name, "Empty");
    assert_eq!(empty.len(), 0);
}

#[test]
fn sections_become_palettes_in_their_order() {
    let sections = vec![
        section("z", vec![text("a", "#111")]),
        section("a", vec![]),
        section("m", vec![text("b", "#222"), text("c", "#333")]),
    ];
    let palettes = palettes_from_sections(&sections).unwrap();
    let names: Vec<&str> = palettes.iter().map(|p| p.name.as_str()).collect();
    assert_eq!(names, vec!["z", "a", "m"]);
    assert_eq!(palettes[0].len(), 1);
    assert_eq!(palettes[1].len(), 0);
    assert_eq!(palettes[2].len(), 2);
    assert!(palettes_from_sections(&vec![]).unwrap().is_empty());
}

#[test]
fn later_documents_win_key_by_key() {
    let documents = vec![
        "[Day]\nsky = \"#00F\"\nsun = \"#FF0\"\n[Dusk]\nsky = \"#F80\"".to_string(),
        "[Night]\nsky = \"#000\"\n[Day]\nsky = \"#0000FF80\"\ncloud = \"#FFF\"".to_string(),
    ];
    let palettes = read_colour_palettes(&documents).unwrap();
    let names: Vec<&str> = palettes.iter().map(|p| p.name.as_str()).collect();
    assert_eq!(names, vec!["Day", "Dusk", "Night"]);
    assert_eq!(palettes[0].get_color("sky"), Some(&Color::new(0, 0, 255, 128)));
    assert_eq!(palettes[0].get_color("sun"), Some(&Color::new_solid(255, 255, 0)));
    assert_eq!(palettes[0].get_color("cloud"), Some(&Color::new_solid(255, 255, 255)));
    assert_eq!(palettes[0].len(), 3);
    assert_eq!(palettes[1].len(), 1);
    assert_eq!(palettes[2].get_color("sky"), Some(&Color::new_solid(0, 0, 0)));
}

#[test]
fn merge_lays_sections_and_keys_over() {
    let base = vec![
        section("a", vec![text("x", "1"), text("y", "2")]),
        section("b", vec![text("x", "3")]),
    ];
    let over = vec![
        section("c", vec![text("z", "4")]),
        section("a", vec![text("y", "5"), text("w", "6")]),
    ];
    let merged = merge_documents(base, &over);
    assert_eq!(
        shape(&merged),
        shape(&vec![
            section("a", vec![text("x", "1"), text("y", "5"), text("w", "6")]),
            section("b", vec![text("x", "3")]),
            section("c", vec![text("z", "4")]),
        ])
    );
    assert_eq!(shape(&merge_documents(vec![], &over)), shape(&over));
    let kept = merge_documents(vec![section("a", vec![text("x", "1")])], &vec![]);
    assert_eq!(shape(&kept), shape(&vec![section("a", vec![text("x", "1")])]));
}

#[test]
fn merge_changes_a_kind_of_value_too() {
    let base = vec![section("a", vec![Entry { key: "x".to_string(), value: Item::Flag(false) }])];
    let over = vec![section("a", vec![text("x", "now text")])];
    let merged = merge_documents(base, &over);
    assert_eq!(shape(&merged), shape(&vec![section("a", vec![text("x", "now text")])]));
}

#[test]
fn find_gives_the_first_index() {
    let entries = vec![text("a", "1"), text("b", "2"), text("a", "3")];
    assert_eq!(find_key(&entries, "a"), Some(0));
    assert_eq!(find_key(&entries, "b"), Some(1));
    assert_eq!(find_key(&entries, "c"), None);
    assert_eq!(find_key(&vec![], "a"), None);
    let sections = vec![section("s", vec![]), section("t", vec![]), section("t", vec![])];
    assert_eq!(find_section(&sections, "t"), Some(1));
    assert_eq!(find_section(&sections, "T"), None);
}

#[test]
fn settings_start_from_the_defaults() {
    let settings = read_program_config_file("\n").unwrap();
    assert_eq!(settings.get("General", "font"), Some("CaskaydiaCove NF".to_string()));
    assert_eq!(settings.get("General", "fontsize"), Some("14px".to_string()));
    assert_eq!(settings.get("General", "foreground"), Some("#FFF".to_string()));
    assert_eq!(settings.get("General", "background"), Some("#000".to_string()));
    assert_eq!(settings.get("General", "test"), Some("false".to_string()));
    assert_eq!(settings.get("General", "missing"), None);
    assert_eq!(settings.get("general", "font"), None);
    assert_eq!(settings.get("Other", "font"), None);
}

#[test]
fn settings_of_the_program_win_over_the_defaults() {
    let settings = read_program_config_file(
        "[General]\nfont = \"Mono\"\ntest = true\nextra = \"yes\"\ncount = 3\n[Window]\ntitle = \"Palette\"\n",
    )
    .unwrap();
    assert_eq!(settings.get("General", "font"), Some("Mono".to_string()));
    assert_eq!(settings.get("General", "test"), Some("true".to_string()));
    assert_eq!(settings.get("General", "extra"), Some("yes".to_string()));
    assert_eq!(settings.get("General", "count"), None);
    assert_eq!(settings.get("General", "fontsize"), Some("14px".to_string()));
    assert_eq!(settings.get("Window", "title"), Some("Palette".to_string()));
    let names: Vec<&str> = settings.sections.iter().map(|s| s.name.as_str()).collect();
    assert_eq!(names, vec!["General", "Window"]);
}

#[test]
fn settings_that_are_no_toml_give_nothing() {
    assert!(read_program_config_file("[General").is_none());
    assert!(read_program_config_file("General = 1").is_none());
}

#[test]
fn items_as_text() {
    assert_eq!(Item::Text("a b".to_string()).text(), Some("a b".to_string()));
    assert_eq!(Item::Flag(true).text(), Some("true".to_string()));
    assert_eq!(Item::Flag(false).text(), Some("false".to_string()));
    assert_eq!(Item::Other.text(), None);
}

#[test]
fn entries_as_colours() {
    assert_eq!(text("a", "#FFF").color(), Ok(Color::new_solid(255, 255, 255)));
    assert_eq!(text("a", "FFFF").color(), Err(ColorError::WrongSize));
    assert_eq!(text("a", "#FFG").color(), Err(ColorError::InvalidDigit));
    assert_eq!(Entry { key: "a".to_string(), value: Item::Flag(true) }.color(), Err(ColorError::NotText));
    assert_eq!(Entry { key: "a".to_string(), value: Item::Other }.color(), Err(ColorError::NotText));
}

#[test]
fn default_settings_text() {
    assert!(DEFAULT_SETTINGS.contains("[General]"));
    assert_eq!(toml_titles(DEFAULT_SETTINGS.to_string()), Some(vec!["General".to_string()]));
}

#[test]
fn default_config_names_the_program() {
    let config = Config::default();
    assert_eq!(config.current_settings.len(), 0);
    assert_eq!(config.default_settings.len(), 1);
    assert_eq!(config.default_settings.keys(), vec!["program name"]);
    assert_eq!(config.default_settings.get("program name"), Some(&PROGRAM_NAME.to_string()));
    assert_eq!(PROGRAM_NAME, "color-palette");
    assert_eq!(DEFAULT_CONFIG_PATH, "~/.config");
}
