//! Lays out styled, multi-section text with optional outlines into glyph
//! images and composes them into one RGBA image per layer.
//!
//! Coordinates are fixed-point numbers in units of 1/64 pixel; pixel data
//! is RGBA with one byte per channel.
use vstd::prelude::*;

pub mod cache;
pub mod compose;
pub mod font;
pub mod laws;
pub mod layout;
pub mod pipeline;
pub mod pixels;
pub mod text;

pub use cache::{OutlinedTextImages, PassAction};
pub use compose::{compose_glyph_images, layer_fits, OutlinedTextImage};
pub use font::{OutlineFontLoaderError, OutlinedFont, OutlinedFontLoader};
pub use layout::{create_glyph_images, measure_lines, GlyphImage, Layer};
pub use pipeline::{compose_layers, recompute_text, split_layers};
pub use pixels::{bitmap_to_image, blend_pixel, Coverage, Rgba8, RgbaImage};
pub use text::{
    Anchor, JustifyOutlinedText, LineMetrics, OutlineStyle, OutlinedFontStyle, OutlinedText,
    OutlinedTextSection, ShapedCluster, ShapedGlyph, UNITS_PER_PIXEL,
};

verus! {

} // verus!
