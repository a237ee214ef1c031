//! Composes the glyph images of one layer into a single RGBA image.
use vstd::prelude::*;
use vstd::arithmetic::div_mod::{lemma_fundamental_div_mod, lemma_fundamental_div_mod_converse};

use crate::layout::{views, GlyphImage, GlyphImageView, Layer};
use crate::pixels::{blend_pixel, blended, Rgba8, RgbaImage};

verus! {

/// A composed layer: its image and the text coordinates (fixed-point units)
/// of its bottom-left corner.
#[derive(Clone, Debug)]
pub struct OutlinedTextImage {
    pub x: i64,
    pub y: i64,
    pub layer: Layer,
    pub image: RgbaImage,
}

pub ghost struct ComposedView {
    pub x: int,
    pub y: int,
    pub layer: Layer,
    pub width: u32,
    pub height: u32,
    pub pixels: Seq<u8>,
}

impl View for OutlinedTextImage {
    type V = ComposedView;

    open spec fn view(&self) -> ComposedView {
        ComposedView {
            x: self.x as int,
            y: self.y as int,
            layer: self.layer,
            width: self.image.width,
            height: self.image.height,
            pixels: self.image.data@,
        }
    }
}

/// What the compositor makes of a non-empty layer.
pub open spec fn composed_view(gs: Seq<GlyphImageView>) -> ComposedView {
    ComposedView {
        x: min_x(gs),
        y: min_y(gs),
        layer: gs[0].layer,
        width: canvas_width(gs) as u32,
        height: canvas_height(gs) as u32,
        pixels: composed(gs, gs.len() as int),
    }
}

pub open spec fn min_x(gs: Seq<GlyphImageView>) -> int
    decreases gs.len(),
{
    if gs.len() <= 1 {
        gs[0].offset_x
    } else {
        let m = min_x(gs.drop_last());
        if gs.last().offset_x < m {
            gs.last().offset_x
        } else {
            m
        }
    }
}

pub open spec fn min_y(gs: Seq<GlyphImageView>) -> int
    decreases gs.len(),
{
    if gs.len() <= 1 {
        gs[0].offset_y
    } else {
        let m = min_y(gs.drop_last());
        if gs.last().offset_y < m {
            gs.last().offset_y
        } else {
            m
        }
    }
}

pub open spec fn right(g: GlyphImageView) -> int {
    g.offset_x + 64 * g.width
}

pub open spec fn top(g: GlyphImageView) -> int {
    g.offset_y + 64 * g.height
}

pub open spec fn max_x(gs: Seq<GlyphImageView>) -> int
    decreases gs.len(),
{
    if gs.len() <= 1 {
        right(gs[0])
    } else {
        let m = max_x(gs.drop_last());
        if right(gs.last()) > m {
            right(gs.last())
        } else {
            m
        }
    }
}

pub open spec fn max_y(gs: Seq<GlyphImageView>) -> int
    decreases gs.len(),
{
    if gs.len() <= 1 {
        top(gs[0])
    } else {
        let m = max_y(gs.drop_last());
        if top(gs.last()) > m {
            top(gs.last())
        } else {
            m
        }
    }
}

/// Whole pixels that cover a nonnegative length in fixed-point units.
pub open spec fn ceil_px(v: int) -> int {
    (v + 63) / 64
}

/// A nonnegative length in fixed-point units rounded to whole pixels, halves
/// upwards.
pub open spec fn round_px(v: int) -> int {
    (v + 32) / 64
}

pub open spec fn canvas_width(gs: Seq<GlyphImageView>) -> int {
    ceil_px(max_x(gs) - min_x(gs))
}

pub open spec fn canvas_height(gs: Seq<GlyphImageView>) -> int {
    ceil_px(max_y(gs) - min_y(gs))
}

/// Column of the canvas where glyph `g` starts.
pub open spec fn dest_x(gs: Seq<GlyphImageView>, g: GlyphImageView) -> int {
    round_px(g.offset_x - min_x(gs))
}

/// Row of the canvas where glyph `g` starts: canvas rows run downwards,
/// text coordinates upwards.
pub open spec fn dest_y(gs: Seq<GlyphImageView>, g: GlyphImageView) -> int {
    canvas_height(gs) - g.height - round_px(g.offset_y - min_y(gs))
}

pub open spec fn pixel_at(data: Seq<u8>, p: int) -> Rgba8 {
    Rgba8 { r: data[4 * p], g: data[4 * p + 1], b: data[4 * p + 2], a: data[4 * p + 3] }
}

pub open spec fn channel(c: Rgba8, j: int) -> u8 {
    if j == 0 {
        c.r
    } else if j == 1 {
        c.g
    } else if j == 2 {
        c.b
    } else {
        c.a
    }
}

/// Byte `i` of a canvas `cw` pixels wide after the first `count` pixels,
/// row by row, of a `w` pixels wide image have been composited over it with
/// their top-left corner at column `dx`, row `dy`.
pub open spec fn painted_byte(
    canvas: Seq<u8>,
    cw: int,
    w: int,
    pixels: Seq<u8>,
    dx: int,
    dy: int,
    count: int,
    i: int,
) -> u8 {
    let p = i / 4;
    let px = p % cw;
    let py = p / cw;
    let q = (py - dy) * w + (px - dx);
    if dx <= px < dx + w && dy <= py && q < count {
        channel(blended(pixel_at(pixels, q), pixel_at(canvas, p)), i % 4)
    } else {
        canvas[i]
    }
}

pub open spec fn painted(
    canvas: Seq<u8>,
    cw: int,
    w: int,
    pixels: Seq<u8>,
    dx: int,
    dy: int,
    count: int,
) -> Seq<u8> {
    Seq::new(canvas.len(), |i: int| painted_byte(canvas, cw, w, pixels, dx, dy, count, i))
}

/// The canvas after the first `k` glyphs have been composited in order.
pub open spec fn composed(gs: Seq<GlyphImageView>, k: int) -> Seq<u8>
    decreases k,
{
    if k <= 0 {
        Seq::new((4 * canvas_width(gs) * canvas_height(gs)) as nat, |i: int| 0u8)
    } else {
        let g = gs[k - 1];
        painted(
            composed(gs, k - 1),
            canvas_width(gs),
            g.width as int,
            g.pixels,
            dest_x(gs, g),
            dest_y(gs, g),
            g.width * g.height,
        )
    }
}

proof fn lemma_paint_step(
    canvas: Seq<u8>,
    before: Seq<u8>,
    after: Seq<u8>,
    cw: int,
    w: int,
    pixels: Seq<u8>,
    dx: int,
    dy: int,
    sx: int,
    sy: int,
)
    requires
        cw > 0,
        0 <= dx,
        0 <= dy,
        0 <= sx < w,
        0 <= sy,
        dx + w <= cw,
        4 * ((dy + sy) * cw + dx + sx) + 4 <= canvas.len(),
        before == painted(canvas, cw, w, pixels, dx, dy, sy * w + sx),
        after.len() == before.len(),
        forall|i: int|
            0 <= i < after.len() ==> #[trigger] after[i] == if (i / 4) == (dy + sy) * cw + dx + sx {
                channel(
                    blended(
                        pixel_at(pixels, sy * w + sx),
                        pixel_at(before, (dy + sy) * cw + dx + sx),
                    ),
                    i % 4,
                )
            } else {
                before[i]
            },
    ensures
        after == painted(canvas, cw, w, pixels, dx, dy, sy * w + sx + 1),
        pixel_at(before, (dy + sy) * cw + dx + sx) == pixel_at(canvas, (dy + sy) * cw + dx + sx),
{
    let pp = (dy + sy) * cw + dx + sx;
    let q = sy * w + sx;
    lemma_fundamental_div_mod_converse(pp, cw, dy + sy, dx + sx);
    lemma_fundamental_div_mod_converse(4 * pp, 4, pp, 0);
    lemma_fundamental_div_mod_converse(4 * pp + 1, 4, pp, 1);
    lemma_fundamental_div_mod_converse(4 * pp + 2, 4, pp, 2);
    lemma_fundamental_div_mod_converse(4 * pp + 3, 4, pp, 3);
    assert forall|i: int| 0 <= i < after.len() implies #[trigger] after[i] == painted_byte(
        canvas,
        cw,
        w,
        pixels,
        dx,
        dy,
        q + 1,
        i,
    ) by {
        let p = i / 4;
        let px = p % cw;
        let py = p / cw;
        let qi = (py - dy) * w + (px - dx);
        lemma_fundamental_div_mod(i, 4);
        if p == pp {
        } else {
            if dx <= px < dx + w && dy <= py && qi == q {
                lemma_fundamental_div_mod_converse(qi, w, py - dy, px - dx);
                lemma_fundamental_div_mod_converse(q, w, sy, sx);
                lemma_fundamental_div_mod(p, cw);
                assert(p == cw * py + px);
                assert(py == dy + sy);
                assert(px == dx + sx);
                assert(cw * py == (dy + sy) * cw) by (nonlinear_arith)
                    requires
                        py == dy + sy,
                ;
                assert(false);
            }
        }
    }
    assert(after =~= painted(canvas, cw, w, pixels, dx, dy, q + 1));
}

proof fn lemma_painted_none(canvas: Seq<u8>, cw: int, w: int, pixels: Seq<u8>, dx: int, dy: int)
    requires
        w >= 0,
    ensures
        painted(canvas, cw, w, pixels, dx, dy, 0) == canvas,
{
    assert forall|i: int| 0 <= i < canvas.len() implies #[trigger] painted_byte(
        canvas,
        cw,
        w,
        pixels,
        dx,
        dy,
        0,
        i,
    ) == canvas[i] by {
        let p = i / 4;
        let px = p % cw;
        let py = p / cw;
        if dx <= px && dy <= py {
            assert((py - dy) * w >= 0) by (nonlinear_arith)
                requires
                    py - dy >= 0,
                    w >= 0,
            ;
        }
    }
    assert(painted(canvas, cw, w, pixels, dx, dy, 0) =~= canvas);
}

fn paint_glyph(data: &mut Vec<u8>, cw: usize, ch: usize, img: &RgbaImage, dx: usize, dy: usize)
    requires
        old(data)@.len() == 4 * cw * ch,
        4 * cw * ch <= u32::MAX,
        img.wf(),
        dx + img.width <= cw,
        dy + img.height <= ch,
    ensures
        final(data)@ == painted(
            old(data)@,
            cw as int,
            img.width as int,
            img.data@,
            dx as int,
            dy as int,
            img.width * img.height,
        ),
{
    let ghost canvas = data@;
    let w = img.width as usize;
    let h = img.height as usize;
    let n_src = img.data.len();
    proof {
        lemma_painted_none(canvas, cw as int, w as int, img.data@, dx as int, dy as int);
    }
    if w == 0 || h == 0 {
        assert(w * h == 0) by (nonlinear_arith)
            requires
                w == 0 || h == 0,
        ;
        return;
    }
    let mut sy: usize = 0;
    while sy < h
        invariant
            canvas.len() == 4 * cw * ch,
            4 * cw * ch <= u32::MAX,
            img.wf(),
            w == img.width,
            h == img.height,
            n_src == img.data@.len(),
            w > 0,
            dx + w <= cw,
            dy + h <= ch,
            sy <= h,
            data@ == painted(canvas, cw as int, w as int, img.data@, dx as int, dy as int, sy * w),
        decreases h - sy,
    {
        let mut sx: usize = 0;
        while sx < w
            invariant
                canvas.len() == 4 * cw * ch,
                4 * cw * ch <= u32::MAX,
                img.wf(),
                w == img.width,
                h == img.height,
                n_src == img.data@.len(),
                dx + w <= cw,
                dy + h <= ch,
                sy < h,
                sx <= w,
                data@ == painted(
                    canvas,
                    cw as int,
                    w as int,
                    img.data@,
                    dx as int,
                    dy as int,
                    sy * w + sx,
                ),
            decreases w - sx,
        {
            assert(4 * ((dy + sy) * cw + dx + sx) + 4 <= 4 * cw * ch) by (nonlinear_arith)
                requires
                    dy + sy < ch,
                    dx + sx < cw,
            ;
            assert(4 * (sy * w + sx) + 4 <= 4 * (w * h)) by (nonlinear_arith)
                requires
                    sy < h,
                    sx < w,
            ;
            let s: usize = (sy * w + sx) * 4;
            let d: usize = ((dy + sy) * cw + dx + sx) * 4;
            let ghost before = data@;
            let src = Rgba8 { r: img.data[s], g: img.data[s + 1], b: img.data[s + 2], a: img.data[s + 3] };
            let dst = Rgba8 { r: data[d], g: data[d + 1], b: data[d + 2], a: data[d + 3] };
            let out = blend_pixel(src, dst);
            data.set(d, out.r);
            data.set(d + 1, out.g);
            data.set(d + 2, out.b);
            data.set(d + 3, out.a);
            proof {
                let pp = (dy + sy) * cw + dx + sx;
                assert forall|i: int| 0 <= i < data@.len() implies #[trigger] data@[i] == if (i / 4)
                    == pp {
                    channel(blended(pixel_at(img.data@, sy * w + sx), pixel_at(before, pp)), i % 4)
                } else {
                    before[i]
                } by {
                    lemma_fundamental_div_mod(i, 4);
                }
                lemma_paint_step(
                    canvas,
                    before,
                    data@,
                    cw as int,
                    w as int,
                    img.data@,
                    dx as int,
                    dy as int,
                    sx as int,
                    sy as int,
                );
            }
            sx = sx + 1;
        }
        assert(sy * w + w == (sy + 1) * w) by (nonlinear_arith);
        sy = sy + 1;
    }
    assert(h * w == w * h) by (nonlinear_arith);
}

/// Bound on a glyph offset that the compositor takes, in fixed-point units.
pub open spec fn offset_bound() -> int {
    0x400_0000_0000_0000
}

pub open spec fn composable(g: GlyphImageView) -> bool {
    &&& g.pixels.len() == 4 * (g.width * g.height)
    &&& -offset_bound() <= g.offset_x <= offset_bound()
    &&& -offset_bound() <= g.offset_y <= offset_bound()
}

/// The glyphs fit the compositor's ranges and the canvas they span holds at
/// most `u32::MAX` bytes.
pub open spec fn layer_ok(gs: Seq<GlyphImageView>) -> bool {
    &&& forall|i: int| 0 <= i < gs.len() ==> composable(#[trigger] gs[i])
    &&& gs.len() > 0 ==> canvas_width(gs) <= u32::MAX && canvas_height(gs) <= u32::MAX && 4
        * canvas_width(gs) * canvas_height(gs) <= u32::MAX
}

pub(crate) proof fn lemma_box(gs: Seq<GlyphImageView>)
    requires
        gs.len() >= 1,
        forall|i: int| 0 <= i < gs.len() ==> composable(#[trigger] gs[i]),
    ensures
        forall|i: int|
            0 <= i < gs.len() ==> min_x(gs) <= (#[trigger] gs[i]).offset_x && right(gs[i]) <= max_x(
                gs,
            ) && min_y(gs) <= gs[i].offset_y && top(gs[i]) <= max_y(gs),
        -offset_bound() <= min_x(gs) <= offset_bound(),
        -offset_bound() <= min_y(gs) <= offset_bound(),
        -offset_bound() <= max_x(gs) <= offset_bound() + 64 * 0x1_0000_0000,
        -offset_bound() <= max_y(gs) <= offset_bound() + 64 * 0x1_0000_0000,
    decreases gs.len(),
{
    assert(composable(gs[gs.len() - 1]));
    if gs.len() > 1 {
        let d = gs.drop_last();
        assert forall|i: int| 0 <= i < d.len() implies composable(#[trigger] d[i]) by {
            assert(d[i] == gs[i]);
        }
        lemma_box(d);
        assert forall|i: int| 0 <= i < gs.len() implies min_x(gs) <= (#[trigger] gs[i]).offset_x
            && right(gs[i]) <= max_x(gs) && min_y(gs) <= gs[i].offset_y && top(gs[i]) <= max_y(
            gs,
        ) by {
            if i < gs.len() - 1 {
                assert(d[i] == gs[i]);
            }
        }
    }
}

pub(crate) proof fn lemma_dest_fits(o: int, lo: int, size: int, hi: int)
    requires
        lo <= o,
        o + 64 * size <= hi,
        size >= 0,
    ensures
        0 <= round_px(o - lo),
        round_px(o - lo) + size <= ceil_px(hi - lo),
{
}

/// The lowest left edge, lowest bottom edge, highest right edge and highest
/// top edge of a non-empty list of glyphs.
fn bounding_box(glyph_images: &Vec<GlyphImage>) -> (r: (i64, i64, i64, i64))
    requires
        glyph_images@.len() > 0,
        forall|i: int|
            0 <= i < glyph_images@.len() ==> composable(#[trigger] views(glyph_images@)[i]),
    ensures
        r.0 == min_x(views(glyph_images@)),
        r.1 == min_y(views(glyph_images@)),
        r.2 == max_x(views(glyph_images@)),
        r.3 == max_y(views(glyph_images@)),
{
    let ghost gs = views(glyph_images@);
    let n = glyph_images.len();
    let first = &glyph_images[0];
    assert(composable(gs[0]));
    let mut x_min: i64 = first.offset_x;
    let mut y_min: i64 = first.offset_y;
    let mut x_max: i64 = first.offset_x + 64 * first.image.width as i64;
    let mut y_max: i64 = first.offset_y + 64 * first.image.height as i64;
    let mut k: usize = 1;
    assert(gs.take(1).len() == 1);
    while k < n
        invariant
            gs == views(glyph_images@),
            n == gs.len(),
            1 <= k <= n,
            forall|i: int| 0 <= i < gs.len() ==> composable(#[trigger] gs[i]),
            x_min == min_x(gs.take(k as int)),
            y_min == min_y(gs.take(k as int)),
            x_max == max_x(gs.take(k as int)),
            y_max == max_y(gs.take(k as int)),
        decreases n - k,
    {
        let g = &glyph_images[k];
        assert(composable(gs[k as int]));
        assert(gs.take(k as int + 1).drop_last() =~= gs.take(k as int));
        assert(gs.take(k as int + 1).last() == gs[k as int]);
        if g.offset_x < x_min {
            x_min = g.offset_x;
        }
        if g.offset_y < y_min {
            y_min = g.offset_y;
        }
        let right_x: i64 = g.offset_x + 64 * g.image.width as i64;
        if right_x > x_max {
            x_max = right_x;
        }
        let top_y: i64 = g.offset_y + 64 * g.image.height as i64;
        if top_y > y_max {
            y_max = top_y;
        }
        k = k + 1;
    }
    assert(gs.take(n as int) =~= gs);
    (x_min, y_min, x_max, y_max)
}

fn composable_exec(g: &GlyphImage) -> (r: bool)
    ensures
        r == composable(g@),
{
    assert(g.image.width * g.image.height <= 0x1_0000_0000 * 0x1_0000_0000) by (nonlinear_arith)
        requires
            g.image.width <= u32::MAX,
            g.image.height <= u32::MAX,
    ;
    let area: u128 = g.image.width as u128 * g.image.height as u128;
    g.image.data.len() as u128 == 4 * area && -0x400_0000_0000_0000 <= g.offset_x && g.offset_x
        <= 0x400_0000_0000_0000 && -0x400_0000_0000_0000 <= g.offset_y && g.offset_y
        <= 0x400_0000_0000_0000
}

/// Whether the compositor takes this list of glyphs.
pub fn layer_fits(glyph_images: &Vec<GlyphImage>) -> (r: bool)
    ensures
        r == layer_ok(views(glyph_images@)),
{
    let ghost gs = views(glyph_images@);
    let n = glyph_images.len();
    let mut k: usize = 0;
    while k < n
        invariant
            gs == views(glyph_images@),
            n == gs.len(),
            k <= n,
            forall|i: int| 0 <= i < k ==> composable(#[trigger] gs[i]),
        decreases n - k,
    {
        assert(gs[k as int] == glyph_images@[k as int]@);
        if !composable_exec(&glyph_images[k]) {
            return false;
        }
        k = k + 1;
    }
    if n == 0 {
        return true;
    }
    proof {
        lemma_box(gs);
    }
    let (x_min, y_min, x_max, y_max) = bounding_box(glyph_images);
    let cw: u64 = ((x_max - x_min) as u64 + 63) / 64;
    let ch: u64 = ((y_max - y_min) as u64 + 63) / 64;
    if cw > 0xffff_ffff || ch > 0xffff_ffff {
        return false;
    }
    assert(4 * cw * ch <= 4 * 0x1_0000_0000 * 0x1_0000_0000) by (nonlinear_arith)
        requires
            cw <= u32::MAX,
            ch <= u32::MAX,
    ;
    (4 * cw as u128 * ch as u128) <= 0xffff_ffff
}

/// Composites the glyph images of one layer, in order, into the smallest
/// canvas that holds them all; `None` for an empty layer. The result is
/// placed at the lowest offsets of the glyphs and takes the first glyph's
/// layer.
pub fn compose_glyph_images(glyph_images: &Vec<GlyphImage>) -> (r: Option<OutlinedTextImage>)
    requires
        layer_ok(views(glyph_images@)),
    ensures
        r is None <==> glyph_images@.len() == 0,
        r matches Some(img) ==> img@ == composed_view(views(glyph_images@))
            && img.image.width == canvas_width(views(glyph_images@))
            && img.image.height == canvas_height(views(glyph_images@)),
{
    let ghost gs = views(glyph_images@);
    let n = glyph_images.len();
    if n == 0 {
        return None;
    }
    proof {
        lemma_box(gs);
        assert forall|i: int| 0 <= i < glyph_images@.len() implies composable(
            #[trigger] views(glyph_images@)[i],
        ) by {}
    }
    let first = &glyph_images[0];
    let (x_min, y_min, x_max, y_max) = bounding_box(glyph_images);
    let cw: u64 = ((x_max - x_min) as u64 + 63) / 64;
    let ch: u64 = ((y_max - y_min) as u64 + 63) / 64;
    assert(cw == canvas_width(gs) && ch == canvas_height(gs));
    assert(4 * cw * ch <= u32::MAX);
    assert(cw <= u32::MAX && ch <= u32::MAX);
    assert(4 * cw * ch <= 4 * 0x1_0000_0000 * 0x1_0000_0000) by (nonlinear_arith)
        requires
            cw <= u32::MAX,
            ch <= u32::MAX,
    ;
    let size: usize = (4 * cw * ch) as usize;
    let cw = cw as usize;
    let ch = ch as usize;
    let mut data: Vec<u8> = Vec::with_capacity(size);
    let mut i: usize = 0;
    while i < size
        invariant
            i <= size,
            data@ =~= Seq::new(i as nat, |j: int| 0u8),
        decreases size - i,
    {
        data.push(0);
        i = i + 1;
    }
    assert(data@ =~= composed(gs, 0));
    let mut k: usize = 0;
    while k < n
        invariant
            gs == views(glyph_images@),
            n == gs.len(),
            k <= n,
            layer_ok(gs),
            x_min == min_x(gs),
            y_min == min_y(gs),
            cw == canvas_width(gs),
            ch == canvas_height(gs),
            4 * cw * ch <= u32::MAX,
            forall|i: int|
                0 <= i < gs.len() ==> min_x(gs) <= (#[trigger] gs[i]).offset_x && right(gs[i])
                    <= max_x(gs) && min_y(gs) <= gs[i].offset_y && top(gs[i]) <= max_y(gs),
            -offset_bound() <= min_x(gs) <= offset_bound(),
            -offset_bound() <= min_y(gs) <= offset_bound(),
            data@.len() == 4 * cw * ch,
            data@ == composed(gs, k as int),
        decreases n - k,
    {
        let g = &glyph_images[k];
        assert(composable(gs[k as int]));
        assert(gs[k as int] == g@);
        proof {
            lemma_dest_fits(g.offset_x as int, x_min as int, g.image.width as int, max_x(gs));
            lemma_dest_fits(g.offset_y as int, y_min as int, g.image.height as int, max_y(gs));
        }
        let dx: usize = (((g.offset_x - x_min) as u64 + 32) / 64) as usize;
        let ry: usize = (((g.offset_y - y_min) as u64 + 32) / 64) as usize;
        let dy: usize = ch - g.image.height as usize - ry;
        paint_glyph(&mut data, cw, ch, &g.image, dx, dy);
        k = k + 1;
    }
    Some(
        OutlinedTextImage {
            x: x_min,
            y: y_min,
            layer: first.layer,
            image: RgbaImage { width: cw as u32, height: ch as u32, data },
        },
    )
}

} // verus!
