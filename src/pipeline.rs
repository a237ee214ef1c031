//! One recomputation of a text object: layout, then one composed image per
//! non-empty layer.
use vstd::prelude::*;

use crate::compose::{compose_glyph_images, composed_view, layer_fits, layer_ok, ComposedView, OutlinedTextImage};
use crate::layout::{create_glyph_images, text_layout, views, GlyphImage, GlyphImageView, Layer};
use crate::text::{clusters_ok, Anchor, LineMetrics, OutlinedText, ShapedCluster};

verus! {

/// The glyphs of layer `l`, in their order.
pub open spec fn of_layer(gs: Seq<GlyphImageView>, l: Layer) -> Seq<GlyphImageView>
    decreases gs.len(),
{
    if gs.len() == 0 {
        seq![]
    } else {
        let r = of_layer(gs.drop_last(), l);
        if gs.last().layer == l {
            r.push(gs.last())
        } else {
            r
        }
    }
}

pub open spec fn layer_result(gs: Seq<GlyphImageView>, l: Layer) -> Seq<ComposedView> {
    let s = of_layer(gs, l);
    if s.len() == 0 {
        seq![]
    } else {
        seq![composed_view(s)]
    }
}

/// The outline layer's image, where it has one, then the fill layer's.
pub open spec fn composed_layers(gs: Seq<GlyphImageView>) -> Seq<ComposedView> {
    layer_result(gs, Layer::Outline) + layer_result(gs, Layer::Fill)
}

pub open spec fn layers_ok(gs: Seq<GlyphImageView>) -> bool {
    layer_ok(of_layer(gs, Layer::Outline)) && layer_ok(of_layer(gs, Layer::Fill))
}

pub open spec fn image_views(s: Seq<OutlinedTextImage>) -> Seq<ComposedView> {
    s.map_values(|i: OutlinedTextImage| i@)
}

/// Splits glyph images into the fill layer and the outline layer, each in
/// the order in which they came.
pub fn split_layers(glyph_images: Vec<GlyphImage>) -> (r: (Vec<GlyphImage>, Vec<GlyphImage>))
    ensures
        views(r.0@) == of_layer(views(glyph_images@), Layer::Fill),
        views(r.1@) == of_layer(views(glyph_images@), Layer::Outline),
{
    let ghost vs = views(glyph_images@);
    let ghost n = vs.len();
    let mut rest = glyph_images;
    let mut fills: Vec<GlyphImage> = Vec::new();
    let mut outlines: Vec<GlyphImage> = Vec::new();
    let ghost mut k: int = 0;
    while rest.len() > 0
        invariant
            n == vs.len(),
            0 <= k <= n,
            views(rest@) == vs.skip(k),
            views(fills@) == of_layer(vs.take(k), Layer::Fill),
            views(outlines@) == of_layer(vs.take(k), Layer::Outline),
        decreases n - k,
    {
        let ghost before = rest@;
        let g = rest.remove(0);
        proof {
            assert(views(before).len() == before.len());
            assert(k < n);
            assert(rest@ =~= before.subrange(1, before.len() as int));
            assert(vs.skip(k)[0] == g@);
            assert forall|j: int| 0 <= j < rest@.len() implies #[trigger] views(rest@)[j] == vs.skip(
                k + 1,
            )[j] by {
                assert(rest@[j] == before[j + 1]);
                assert(views(before)[j + 1] == vs.skip(k)[j + 1]);
            }
            assert(views(rest@) =~= vs.skip(k + 1));
            assert(vs.take(k + 1).drop_last() =~= vs.take(k));
            assert(vs.take(k + 1).last() == g@);
        }
        let is_fill = match g.layer {
            Layer::Fill => true,
            Layer::Outline => false,
        };
        if is_fill {
            fills.push(g);
        } else {
            outlines.push(g);
        }
        proof {
            assert(views(fills@) =~= of_layer(vs.take(k + 1), Layer::Fill));
            assert(views(outlines@) =~= of_layer(vs.take(k + 1), Layer::Outline));
            k = k + 1;
        }
    }
    proof {
        assert(vs.skip(k).len() == 0);
        assert(vs.take(k) =~= vs);
    }
    (fills, outlines)
}

/// Composes each non-empty layer: the outline layer first, then the fill
/// layer.
pub fn compose_layers(glyph_images: Vec<GlyphImage>) -> (r: Vec<OutlinedTextImage>)
    requires
        layers_ok(views(glyph_images@)),
    ensures
        image_views(r@) == composed_layers(views(glyph_images@)),
{
    let ghost vs = views(glyph_images@);
    let (fills, outlines) = split_layers(glyph_images);
    let mut out: Vec<OutlinedTextImage> = Vec::new();
    if let Some(image) = compose_glyph_images(&outlines) {
        out.push(image);
    }
    assert(image_views(out@) =~= layer_result(vs, Layer::Outline));
    let ghost mid = image_views(out@);
    if let Some(image) = compose_glyph_images(&fills) {
        out.push(image);
    }
    assert(image_views(out@) =~= mid + layer_result(vs, Layer::Fill));
    out
}

/// Recomputes a text object from its shaped glyph stream: lays it out and
/// composes one image per non-empty layer. `None` where a layer spans more
/// than the compositor takes.
pub fn recompute_text(
    text: &OutlinedText,
    anchor: Anchor,
    metrics: LineMetrics,
    clusters: &Vec<ShapedCluster>,
) -> (r: Option<Vec<OutlinedTextImage>>)
    requires
        anchor.wf(),
        metrics.wf(),
        clusters_ok(clusters@, text.sections@.len()),
    ensures
        r is Some <==> layers_ok(text_layout(*text, anchor, metrics, clusters@)),
        r matches Some(v) ==> image_views(v@) == composed_layers(
            text_layout(*text, anchor, metrics, clusters@),
        ),
{
    let glyph_images = create_glyph_images(text, anchor, metrics, clusters);
    let ghost vs = views(glyph_images@);
    let (fills, outlines) = split_layers(glyph_images);
    if !layer_fits(&outlines) || !layer_fits(&fills) {
        return None;
    }
    let mut out: Vec<OutlinedTextImage> = Vec::new();
    if let Some(image) = compose_glyph_images(&outlines) {
        out.push(image);
    }
    assert(image_views(out@) =~= layer_result(vs, Layer::Outline));
    let ghost mid = image_views(out@);
    if let Some(image) = compose_glyph_images(&fills) {
        out.push(image);
    }
    assert(image_views(out@) =~= mid + layer_result(vs, Layer::Fill));
    Some(out)
}

} // verus!
