//! Colour values, named palettes of colours, and the documents that palettes
//! and program settings are read from.

pub mod color;
pub mod config;
pub mod hex;
pub mod label_map;
pub mod palette;
pub mod parser;
pub mod text;
