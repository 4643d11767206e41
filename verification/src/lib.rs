//! A library for reading color-palette description files and rendering
//! them side by side as a true-color terminal table.
//!
//! A palette file decodes to a flat record of string keys and string
//! values; every non-`name` value must be a `#rrggbb` hex color. Palettes
//! from several files are folded into a [`collection::Collection`], which
//! keeps one column per palette and one row per color-slot key, and is
//! rendered as a table with a background swatch behind each hex code.

pub mod collection;
pub mod color;
pub mod error;
pub mod palette;
pub mod palette_file;
pub mod render;
pub mod text;
