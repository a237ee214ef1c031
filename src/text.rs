//! The text model: styled sections, justification, anchor, and the shaped
//! glyph stream that a shaping engine hands to the layout.
use vstd::prelude::*;

use crate::pixels::{Coverage, Rgba8};

verus! {

/// Fixed-point units per pixel of every layout coordinate.
pub const UNITS_PER_PIXEL: i64 = 64;

/// Largest advance of one glyph, in fixed-point units.
pub const MAX_ADVANCE: i64 = 0x10_0000;

/// Largest magnitude of a line metric, in fixed-point units.
pub const MAX_METRIC: i64 = 0x4000_0000;

/// Most glyphs in one shaped cluster.
pub const MAX_CLUSTER_GLYPHS: usize = 0x400;

/// Most clusters in one shaped text.
pub const MAX_CLUSTERS: usize = 0x10_0000;

/// Whether a section's glyphs get a stroked outline, and its width (in
/// fixed-point units) and colour.
#[derive(Clone, Copy, Debug, PartialEq, Eq, Structural)]
pub enum OutlineStyle {
    NoOutline,
    Outline { width: u32, color: Rgba8 },
}

#[derive(Clone, Copy, Debug, PartialEq, Eq, Structural)]
pub enum JustifyOutlinedText {
    Left,
    Center,
    Right,
}

/// One styled run of text.
#[derive(Clone, Debug)]
pub struct OutlinedTextSection {
    pub value: String,
    pub color: Rgba8,
    pub outline: OutlineStyle,
}

/// The requested pixel size of the text, in fixed-point units.
#[derive(Clone, Copy, Debug, PartialEq, Eq, Structural)]
pub struct OutlinedFontStyle {
    pub size: u32,
}

/// A text object: its sections in rendering order, size and justification.
#[derive(Clone, Debug)]
pub struct OutlinedText {
    pub sections: Vec<OutlinedTextSection>,
    pub font_style: OutlinedFontStyle,
    pub justify: JustifyOutlinedText,
}

/// A normalised anchor point in fixed-point units: each axis runs from -32
/// (left, bottom) through 0 (centre) to 32 (right, top).
#[derive(Clone, Copy, Debug, PartialEq, Eq, Structural)]
pub struct Anchor {
    pub x: i64,
    pub y: i64,
}

impl Anchor {
    pub open spec fn wf(&self) -> bool {
        -32 <= self.x <= 32 && -32 <= self.y <= 32
    }
}

/// Vertical metrics of the font at the shaped size, in fixed-point units.
#[derive(Clone, Copy, Debug, PartialEq, Eq, Structural)]
pub struct LineMetrics {
    pub ascent: i64,
    pub descent: i64,
    pub leading: i64,
}

impl LineMetrics {
    pub open spec fn wf(&self) -> bool {
        -MAX_METRIC <= self.ascent <= MAX_METRIC && -MAX_METRIC <= self.descent <= MAX_METRIC
            && -MAX_METRIC <= self.leading <= MAX_METRIC
    }

    pub open spec fn line_height(&self) -> int {
        self.ascent + self.descent + self.leading
    }
}

/// One shaped glyph: its advance in fixed-point units, its rasterized fill,
/// and its rasterized stroke where its section asks for an outline.
#[derive(Clone, Debug)]
pub struct ShapedGlyph {
    pub advance: i64,
    pub fill: Coverage,
    pub outline: Option<Coverage>,
}

/// A cluster of glyphs from one section; `newline` marks an explicit line
/// break.
#[derive(Clone, Debug)]
pub struct ShapedCluster {
    pub section: u32,
    pub newline: bool,
    pub glyphs: Vec<ShapedGlyph>,
}

pub open spec fn coverage_ok(c: Coverage) -> bool {
    c.wf() && c.data@.len() <= usize::MAX / 4
}

pub open spec fn glyph_ok(g: ShapedGlyph) -> bool {
    &&& -MAX_ADVANCE <= g.advance <= MAX_ADVANCE
    &&& coverage_ok(g.fill)
    &&& (g.outline matches Some(o) ==> coverage_ok(o))
}

impl ShapedCluster {
    /// Within the sizes the layout handles, and tagged with a section that
    /// exists.
    pub open spec fn wf(&self, n_sections: nat) -> bool {
        &&& self.section < n_sections
        &&& self.glyphs@.len() <= MAX_CLUSTER_GLYPHS
        &&& forall|g: int| 0 <= g < self.glyphs@.len() ==> glyph_ok(#[trigger] self.glyphs@[g])
    }
}

pub open spec fn clusters_ok(cs: Seq<ShapedCluster>, n_sections: nat) -> bool {
    &&& cs.len() <= MAX_CLUSTERS
    &&& forall|k: int| 0 <= k < cs.len() ==> (#[trigger] cs[k]).wf(n_sections)
}

} // verus!
