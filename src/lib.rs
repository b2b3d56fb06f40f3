//! Renders RGBA pixel grids as coloured half-block text for terminals, and
//! embeds the result in shell scripts.
//!
//! Each line of text shows two rows of pixels: a cell's foreground colours
//! one half of a block glyph and its background the other. Colours are
//! mapped to one of three terminal tiers (24-bit, the 256-colour palette or
//! the eight basic colours), the glyphs are written with the fewest escape
//! codes that keep every cell's colours, and the text can be escaped into a
//! shell script that picks a tier when it runs.
pub mod bash_syntax;
pub mod color;
pub mod quantize;
pub mod render;
pub mod script;
pub mod style;
mod text;

pub use bash_syntax::{escape_for_string_content, write_with_minimal_control_sequences};
pub use color::euclidian_distance;
