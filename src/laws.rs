//! Laws of the pipeline, proved over the specifications of its functions.
use vstd::prelude::*;
use vstd::arithmetic::div_mod::lemma_fundamental_div_mod_converse;

use crate::compose::{
    canvas_height, canvas_width, composed, dest_x, dest_y, layer_ok, lemma_box, lemma_dest_fits,
    max_x, max_y, min_x, min_y, painted, pixel_at, OutlinedTextImage,
};
use crate::layout::{
    line_count, line_of, line_widths, padding, text_height, text_layout, text_width, GlyphImageView,
    Layer,
};
use crate::pipeline::{composed_layers, image_views, of_layer};
use crate::pixels::{blended, Rgba8};
use crate::text::{Anchor, JustifyOutlinedText, LineMetrics, OutlinedText, ShapedCluster};

verus! {

/// Recomputing an unchanged text object gives the same images: any two
/// results that meet the recomputation's contract on the same inputs are
/// identical, pixel for pixel.
pub proof fn recompute_is_idempotent(
    text: OutlinedText,
    anchor: Anchor,
    metrics: LineMetrics,
    clusters: Seq<ShapedCluster>,
    first: Seq<OutlinedTextImage>,
    second: Seq<OutlinedTextImage>,
)
    requires
        image_views(first) == composed_layers(text_layout(text, anchor, metrics, clusters)),
        image_views(second) == composed_layers(text_layout(text, anchor, metrics, clusters)),
    ensures
        image_views(first) == image_views(second),
{
}

/// A text object with no sections, or whose sections shape to nothing,
/// yields no glyph images and no composed images.
pub proof fn empty_text_has_no_images(
    text: OutlinedText,
    anchor: Anchor,
    metrics: LineMetrics,
    clusters: Seq<ShapedCluster>,
)
    requires
        text.sections@.len() == 0 || clusters.len() == 0,
    ensures
        text_layout(text, anchor, metrics, clusters).len() == 0,
        composed_layers(text_layout(text, anchor, metrics, clusters)).len() == 0,
{
    let gs = text_layout(text, anchor, metrics, clusters);
    assert(gs =~= seq![]);
    assert(of_layer(gs, Layer::Outline).len() == 0);
    assert(of_layer(gs, Layer::Fill).len() == 0);
}

proof fn lemma_of_layer(gs: Seq<GlyphImageView>, l: Layer)
    ensures
        forall|i: int|
            0 <= i < of_layer(gs, l).len() ==> (#[trigger] of_layer(gs, l)[i]).layer == l,
    decreases gs.len(),
{
    if gs.len() > 0 {
        lemma_of_layer(gs.drop_last(), l);
    }
}

/// The outline layer, when it is not empty, comes first and lies behind the
/// fill layer: its depth is below the fill layer's.
pub proof fn outline_layer_is_behind(gs: Seq<GlyphImageView>)
    requires
        of_layer(gs, Layer::Outline).len() > 0,
    ensures
        composed_layers(gs)[0].layer == Layer::Outline,
        of_layer(gs, Layer::Fill).len() > 0 ==> composed_layers(gs).len() == 2
            && composed_layers(gs)[1].layer == Layer::Fill,
        Layer::Outline.depth_spec() < Layer::Fill.depth_spec(),
{
    lemma_of_layer(gs, Layer::Outline);
    lemma_of_layer(gs, Layer::Fill);
    assert(of_layer(gs, Layer::Outline)[0].layer == Layer::Outline);
    if of_layer(gs, Layer::Fill).len() > 0 {
        assert(of_layer(gs, Layer::Fill)[0].layer == Layer::Fill);
    }
}

proof fn lemma_line_of_counts_breaks(cs: Seq<ShapedCluster>, k: int)
    requires
        0 <= k <= cs.len(),
    ensures
        line_of(cs, k) == cs.take(k).filter(|c: ShapedCluster| c.newline).len(),
    decreases k,
{
    let f = |c: ShapedCluster| c.newline;
    if k > 0 {
        lemma_line_of_counts_breaks(cs, k - 1);
        assert(cs.take(k).drop_last() =~= cs.take(k - 1));
        assert(cs.take(k).last() == cs[k - 1]);
        assert(f(cs[k - 1]) == cs[k - 1].newline);
        reveal_with_fuel(Seq::filter, 2);
        assert(cs.take(k).filter(f).len() == cs.take(k - 1).filter(f).len() + if cs[k - 1].newline {
            1int
        } else {
            0int
        });
    } else {
        assert(cs.take(k).filter(f).len() == 0);
    }
}

/// A text with `k` line breaks has `k + 1` lines, and its height is the
/// ascent and descent plus `k` line heights.
pub proof fn line_breaks_count_lines(metrics: LineMetrics, clusters: Seq<ShapedCluster>)
    ensures
        ({
            let k = clusters.filter(|c: ShapedCluster| c.newline).len();
            &&& line_widths(clusters).len() == k + 1
            &&& line_count(clusters) == k + 1
            &&& text_height(metrics, clusters) == metrics.ascent + metrics.descent + k
                * metrics.line_height()
        }),
{
    lemma_line_of_counts_breaks(clusters, clusters.len() as int);
    assert(clusters.take(clusters.len() as int) =~= clusters);
    lemma_closed_len(clusters, clusters.len() as int);
}

proof fn lemma_closed_len(cs: Seq<ShapedCluster>, k: int)
    requires
        0 <= k <= cs.len(),
    ensures
        crate::layout::closed_widths(cs, k).len() == line_of(cs, k),
    decreases k,
{
    if k > 0 {
        lemma_closed_len(cs, k - 1);
    }
}

/// Centred lines: each line's padding is half of what it lacks of the text
/// width, so the line and twice its padding make up the text width, to
/// within the one unit that halving an odd difference drops.
pub proof fn centered_padding_fills_width(clusters: Seq<ShapedCluster>, i: int)
    requires
        0 <= i < line_widths(clusters).len(),
    ensures
        ({
            let tw = text_width(clusters);
            let lw = line_widths(clusters)[i];
            let pad = padding(JustifyOutlinedText::Center, tw, lw);
            &&& pad == (tw - lw) / 2
            &&& pad >= 0
            &&& (tw - lw) % 2 == 0 ==> lw + 2 * pad == tw
            &&& (tw - lw) % 2 == 1 ==> lw + 2 * pad + 1 == tw
        }),
{
    lemma_width_is_max(line_widths(clusters));
}

proof fn lemma_width_is_max(s: Seq<int>)
    ensures
        forall|i: int| 0 <= i < s.len() ==> #[trigger] s[i] <= crate::layout::max_or_zero(s),
    decreases s.len(),
{
    if s.len() > 0 {
        lemma_width_is_max(s.drop_last());
        assert forall|i: int| 0 <= i < s.len() implies #[trigger] s[i] <= crate::layout::max_or_zero(
            s,
        ) by {
            if i < s.len() - 1 {
                assert(s[i] == s.drop_last()[i]);
            }
        }
    }
}

/// A pixel of a canvas after a whole image has been composited over it.
proof fn lemma_painted_pixel(
    canvas: Seq<u8>,
    cw: int,
    w: int,
    h: int,
    pixels: Seq<u8>,
    dx: int,
    dy: int,
    p: int,
)
    requires
        cw > 0,
        w >= 0,
        h >= 0,
        0 <= p,
        4 * p + 4 <= canvas.len(),
    ensures
        ({
            let px = p % cw;
            let py = p / cw;
            pixel_at(painted(canvas, cw, w, pixels, dx, dy, w * h), p) == if dx <= px < dx + w
                && dy <= py < dy + h {
                blended(pixel_at(pixels, (py - dy) * w + (px - dx)), pixel_at(canvas, p))
            } else {
                pixel_at(canvas, p)
            }
        }),
{
    let px = p % cw;
    let py = p / cw;
    let q = (py - dy) * w + (px - dx);
    lemma_fundamental_div_mod_converse(4 * p, 4, p, 0);
    lemma_fundamental_div_mod_converse(4 * p + 1, 4, p, 1);
    lemma_fundamental_div_mod_converse(4 * p + 2, 4, p, 2);
    lemma_fundamental_div_mod_converse(4 * p + 3, 4, p, 3);
    if dx <= px < dx + w && dy <= py {
        if py < dy + h {
            assert(q < w * h) by (nonlinear_arith)
                requires
                    q == (py - dy) * w + (px - dx),
                    0 <= px - dx < w,
                    0 <= py - dy < h,
            ;
        } else {
            assert(q >= w * h) by (nonlinear_arith)
                requires
                    q == (py - dy) * w + (px - dx),
                    0 <= px - dx < w,
                    py - dy >= h,
            ;
        }
    }
}

proof fn lemma_over_clear(src: Rgba8)
    ensures
        blended(src, Rgba8 { r: 0, g: 0, b: 0, a: 0 }) == src,
{
    assert(src.r * 255 / 255 == src.r) by (nonlinear_arith);
    assert(src.g * 255 / 255 == src.g) by (nonlinear_arith);
    assert(src.b * 255 / 255 == src.b) by (nonlinear_arith);
    assert((255 - src.a) * 255 / 255 == 255 - src.a) by (nonlinear_arith);
}

/// Whether two images placed on the canvas share no pixel.
pub open spec fn apart(gs: Seq<GlyphImageView>, a: GlyphImageView, b: GlyphImageView) -> bool {
    dest_x(gs, a) + a.width <= dest_x(gs, b) || dest_x(gs, b) + b.width <= dest_x(gs, a) || dest_y(
        gs,
        a,
    ) + a.height <= dest_y(gs, b) || dest_y(gs, b) + b.height <= dest_y(gs, a)
}

/// Two glyph images that do not overlap on the canvas are each copied to
/// their place unchanged: compositing over a clear pixel reproduces the
/// source, so no blending shows where the canvas was empty. This holds of
/// fully opaque glyphs in particular.
pub proof fn apart_glyphs_are_copied(gs: Seq<GlyphImageView>, j: int, sx: int, sy: int)
    requires
        gs.len() == 2,
        layer_ok(gs),
        apart(gs, gs[0], gs[1]),
        0 <= j < 2,
        0 <= sx < gs[j].width,
        0 <= sy < gs[j].height,
    ensures
        pixel_at(
            composed(gs, 2),
            (dest_y(gs, gs[j]) + sy) * canvas_width(gs) + dest_x(gs, gs[j]) + sx,
        ) == pixel_at(gs[j].pixels, sy * gs[j].width + sx),
{
    lemma_box(gs);
    let cw = canvas_width(gs);
    let ch = canvas_height(gs);
    let g0 = gs[0];
    let g1 = gs[1];
    lemma_dest_fits(g0.offset_x, min_x(gs), g0.width as int, max_x(gs));
    lemma_dest_fits(g0.offset_y, min_y(gs), g0.height as int, max_y(gs));
    lemma_dest_fits(g1.offset_x, min_x(gs), g1.width as int, max_x(gs));
    lemma_dest_fits(g1.offset_y, min_y(gs), g1.height as int, max_y(gs));
    let g = gs[j];
    let dx = dest_x(gs, g);
    let dy = dest_y(gs, g);
    let p = (dy + sy) * cw + dx + sx;
    assert(cw > 0);
    lemma_fundamental_div_mod_converse(p, cw, dy + sy, dx + sx);
    assert(4 * p + 4 <= 4 * cw * ch) by (nonlinear_arith)
        requires
            p == (dy + sy) * cw + dx + sx,
            dy + sy < ch,
            dx + sx < cw,
            0 <= dy + sy,
            0 <= dx + sx,
    ;
    assert(p >= 0) by (nonlinear_arith)
        requires
            p == (dy + sy) * cw + dx + sx,
            0 <= dy + sy,
            0 <= dx + sx,
            cw > 0,
    ;
    let c0 = composed(gs, 0);
    let c1 = composed(gs, 1);
    let c2 = composed(gs, 2);
    assert(pixel_at(c0, p) == Rgba8 { r: 0, g: 0, b: 0, a: 0 });
    lemma_painted_pixel(c0, cw, g0.width as int, g0.height as int, g0.pixels, dest_x(gs, g0), dest_y(gs, g0), p);
    lemma_painted_pixel(c1, cw, g1.width as int, g1.height as int, g1.pixels, dest_x(gs, g1), dest_y(gs, g1), p);
    lemma_over_clear(pixel_at(g.pixels, sy * g.width + sx));
}

} // verus!
