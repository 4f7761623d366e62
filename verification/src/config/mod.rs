//! Program settings and palettes, read from documents and laid over
//! defaults.

use vstd::prelude::*;
use crate::label_map::LabelMap;

pub mod merge;
pub mod reader;

verus! {

/// Where the configuration lies unless the environment says otherwise.
pub const DEFAULT_CONFIG_PATH: &'static str = "~/.config";

/// The name of the program, and of its folder and its document.
pub const PROGRAM_NAME: &'static str = "color-palette";

/// The settings in use and those that they fall back on, by name.
#[derive(Debug)]
pub struct Config {
    pub current_settings: LabelMap<String>,
    pub default_settings: LabelMap<String>,
}

impl Default for Config {
    /// No settings in use; the name of the program to fall back on.
    fn default() -> (config: Self)
        ensures
            config.current_settings@ == Map::<Seq<char>, String>::empty(),
            config.default_settings@.dom() == set!["program name"@],
            config.default_settings@["program name"@]@ == PROGRAM_NAME@,
    {
        let mut default_settings: LabelMap<String> = LabelMap::new();
        default_settings.insert("program name".to_owned(), PROGRAM_NAME.to_owned());
        Config { current_settings: LabelMap::new(), default_settings }
    }
}

} // verus!
