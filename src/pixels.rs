//! Pixel formats and the per-pixel operations of the pipeline.
use vstd::prelude::*;

verus! {

/// A colour with one byte per channel.
#[derive(Clone, Copy, Debug, PartialEq, Eq, Structural)]
pub struct Rgba8 {
    pub r: u8,
    pub g: u8,
    pub b: u8,
    pub a: u8,
}

/// An alpha-only coverage bitmap as a rasterizer produces it: one byte per
/// pixel, rows from top to bottom, placed relative to the glyph origin in
/// whole pixels (`left` to the right, `top` upwards).
#[derive(Clone, Debug)]
pub struct Coverage {
    pub left: i32,
    pub top: i32,
    pub width: u32,
    pub height: u32,
    pub data: Vec<u8>,
}

impl Coverage {
    pub open spec fn wf(&self) -> bool {
        self.data@.len() == self.width as int * self.height as int
    }
}

/// An RGBA image: four bytes per pixel, rows from top to bottom.
#[derive(Clone, Debug)]
pub struct RgbaImage {
    pub width: u32,
    pub height: u32,
    pub data: Vec<u8>,
}

impl RgbaImage {
    pub open spec fn wf(&self) -> bool {
        self.data@.len() == 4 * (self.width as int * self.height as int)
    }

    /// An image with no pixels is never placed.
    pub open spec fn is_blank(&self) -> bool {
        self.width == 0 || self.height == 0
    }

    pub fn is_empty(&self) -> (r: bool)
        ensures
            r == self.is_blank(),
    {
        self.width == 0 || self.height == 0
    }
}

/// Channel `i % 4` of pixel `i / 4` of a coverage bitmap painted in `color`:
/// the colour's red, green and blue, and the coverage as alpha.
pub open spec fn colorized_byte(coverage: Seq<u8>, color: Rgba8, i: int) -> u8 {
    if i % 4 == 0 {
        color.r
    } else if i % 4 == 1 {
        color.g
    } else if i % 4 == 2 {
        color.b
    } else {
        coverage[i / 4]
    }
}

pub open spec fn colorized(coverage: Seq<u8>, color: Rgba8) -> Seq<u8> {
    Seq::new(4 * coverage.len(), |i: int| colorized_byte(coverage, color, i))
}

/// Paints a coverage bitmap in a flat colour. The colour's own alpha is not
/// used: each pixel's alpha is its coverage.
pub fn bitmap_to_image(bitmap: &Coverage, color: Rgba8) -> (r: RgbaImage)
    requires
        bitmap.wf(),
        bitmap.data@.len() <= usize::MAX / 4,
    ensures
        r.width == bitmap.width,
        r.height == bitmap.height,
        r.data@ == colorized(bitmap.data@, color),
        r.wf(),
{
    let n = bitmap.data.len();
    let mut data: Vec<u8> = Vec::with_capacity(4 * n);
    let mut i: usize = 0;
    while i < n
        invariant
            n == bitmap.data@.len(),
            i <= n,
            n <= usize::MAX / 4,
            data@.len() == 4 * i,
            forall|j: int| 0 <= j < 4 * i ==> data@[j] == colorized_byte(bitmap.data@, color, j),
        decreases n - i,
    {
        let alpha = bitmap.data[i];
        data.push(color.r);
        data.push(color.g);
        data.push(color.b);
        data.push(alpha);
        assert forall|j: int| 4 * i <= j < 4 * (i + 1) implies data@[j] == colorized_byte(
            bitmap.data@,
            color,
            j,
        ) by {
            assert(j / 4 == i as int);
        }
        i = i + 1;
    }
    let r = RgbaImage { width: bitmap.width, height: bitmap.height, data };
    assert(r.data@ =~= colorized(bitmap.data@, color));
    r
}

/// Alpha of `src` composited over a pixel of alpha `dst_a`.
pub open spec fn over_alpha(src_a: int, dst_a: int) -> int {
    255 - (255 - src_a) * (255 - dst_a) / 255
}

/// A colour channel of `src` composited over `dst`, with each division
/// truncated and the result held to one byte.
pub open spec fn over_channel(src_c: int, dst_c: int, src_a: int, dst_a: int) -> int {
    let v = (src_c * (255 - dst_a) + dst_c * (255 - src_a)) / 255;
    if v > 255 {
        255
    } else {
        v
    }
}

pub open spec fn blended(src: Rgba8, dst: Rgba8) -> Rgba8 {
    Rgba8 {
        r: over_channel(src.r as int, dst.r as int, src.a as int, dst.a as int) as u8,
        g: over_channel(src.g as int, dst.g as int, src.a as int, dst.a as int) as u8,
        b: over_channel(src.b as int, dst.b as int, src.a as int, dst.a as int) as u8,
        a: over_alpha(src.a as int, dst.a as int) as u8,
    }
}

proof fn lemma_over_bounds(s: int, d: int, sa: int, da: int)
    requires
        0 <= s <= 255,
        0 <= d <= 255,
        0 <= sa <= 255,
        0 <= da <= 255,
    ensures
        0 <= over_alpha(sa, da) <= 255,
        0 <= over_channel(s, d, sa, da) <= 255,
        0 <= s * (255 - da) + d * (255 - sa) <= 2 * 255 * 255,
        0 <= (255 - sa) * (255 - da) <= 255 * 255,
{
    assert(0 <= (255 - sa) * (255 - da) <= 255 * 255) by (nonlinear_arith)
        requires
            0 <= sa <= 255,
            0 <= da <= 255,
    ;
    assert(0 <= s * (255 - da) + d * (255 - sa) <= 2 * 255 * 255) by (nonlinear_arith)
        requires
            0 <= s <= 255,
            0 <= d <= 255,
            0 <= sa <= 255,
            0 <= da <= 255,
    ;
}

fn over_channel_exec(s: u8, d: u8, sa: u8, da: u8) -> (r: u8)
    ensures
        r as int == over_channel(s as int, d as int, sa as int, da as int),
{
    proof {
        lemma_over_bounds(s as int, d as int, sa as int, da as int);
    }
    let v: u32 = (s as u32 * (255 - da as u32) + d as u32 * (255 - sa as u32)) / 255;
    if v > 255 {
        255
    } else {
        v as u8
    }
}

/// Composites `src` over `dst` with the integer "alpha over" rule of the
/// compositor.
pub fn blend_pixel(src: Rgba8, dst: Rgba8) -> (r: Rgba8)
    ensures
        r == blended(src, dst),
{
    proof {
        lemma_over_bounds(0, 0, src.a as int, dst.a as int);
    }
    let a: u32 = 255 - (255 - src.a as u32) * (255 - dst.a as u32) / 255;
    Rgba8 {
        r: over_channel_exec(src.r, dst.r, src.a, dst.a),
        g: over_channel_exec(src.g, dst.g, src.a, dst.a),
        b: over_channel_exec(src.b, dst.b, src.a, dst.a),
        a: a as u8,
    }
}

} // verus!
