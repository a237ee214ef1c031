//! Line layout: turns the shaped glyph stream into glyph images placed on
//! lines, justified and anchored.
use vstd::prelude::*;

use crate::pixels::{bitmap_to_image, colorized, Coverage, Rgba8, RgbaImage};
use crate::text::{
    clusters_ok, coverage_ok, glyph_ok, Anchor, JustifyOutlinedText, LineMetrics, OutlineStyle,
    OutlinedText, OutlinedTextSection, ShapedCluster, ShapedGlyph, MAX_ADVANCE, MAX_CLUSTERS,
};

verus! {

/// The depth layer of a glyph image: outlines are drawn behind fills.
#[derive(Clone, Copy, Debug, PartialEq, Eq, Structural)]
pub enum Layer {
    Fill,
    Outline,
}

impl Layer {
    /// Depth of the layer in thousandths: fills at 0, outlines at -1.
    pub open spec fn depth_spec(self) -> int {
        match self {
            Layer::Fill => 0,
            Layer::Outline => -1,
        }
    }

    pub fn depth_thousandths(self) -> (r: i32)
        ensures
            r == self.depth_spec(),
    {
        match self {
            Layer::Fill => 0,
            Layer::Outline => -1,
        }
    }
}

/// A glyph bitmap placed in text coordinates (fixed-point units, y up).
#[derive(Clone, Debug)]
pub struct GlyphImage {
    pub offset_x: i64,
    pub offset_y: i64,
    pub layer: Layer,
    pub image: RgbaImage,
}

pub ghost struct GlyphImageView {
    pub offset_x: int,
    pub offset_y: int,
    pub layer: Layer,
    pub width: u32,
    pub height: u32,
    pub pixels: Seq<u8>,
}

impl View for GlyphImage {
    type V = GlyphImageView;

    open spec fn view(&self) -> GlyphImageView {
        GlyphImageView {
            offset_x: self.offset_x as int,
            offset_y: self.offset_y as int,
            layer: self.layer,
            width: self.image.width,
            height: self.image.height,
            pixels: self.image.data@,
        }
    }
}

pub open spec fn views(s: Seq<GlyphImage>) -> Seq<GlyphImageView> {
    s.map_values(|g: GlyphImage| g@)
}

/// Pen position after the first `g` glyphs of a cluster.
pub open spec fn glyph_pen(glyphs: Seq<ShapedGlyph>, g: int) -> int
    decreases g,
{
    if g <= 0 {
        0
    } else {
        glyph_pen(glyphs, g - 1) + glyphs[g - 1].advance
    }
}

pub open spec fn cluster_advance(c: ShapedCluster) -> int {
    glyph_pen(c.glyphs@, c.glyphs@.len() as int)
}

/// Pen position at which cluster `k` starts: the advances since the last
/// line break. A break's own glyphs do not advance the pen.
pub open spec fn start_x(cs: Seq<ShapedCluster>, k: int) -> int
    decreases k,
{
    if k <= 0 {
        0
    } else if cs[k - 1].newline {
        0
    } else {
        start_x(cs, k - 1) + cluster_advance(cs[k - 1])
    }
}

/// The line of cluster `k`: the number of line breaks before it.
pub open spec fn line_of(cs: Seq<ShapedCluster>, k: int) -> int
    decreases k,
{
    if k <= 0 {
        0
    } else {
        line_of(cs, k - 1) + if cs[k - 1].newline {
            1int
        } else {
            0int
        }
    }
}

pub open spec fn line_count(cs: Seq<ShapedCluster>) -> int {
    line_of(cs, cs.len() as int) + 1
}

/// Widths of the lines that the breaks among the first `k` clusters close.
pub open spec fn closed_widths(cs: Seq<ShapedCluster>, k: int) -> Seq<int>
    decreases k,
{
    if k <= 0 {
        seq![]
    } else if cs[k - 1].newline {
        closed_widths(cs, k - 1).push(start_x(cs, k - 1))
    } else {
        closed_widths(cs, k - 1)
    }
}

/// Width of each line, first line first.
pub open spec fn line_widths(cs: Seq<ShapedCluster>) -> Seq<int> {
    closed_widths(cs, cs.len() as int).push(start_x(cs, cs.len() as int))
}

/// The largest element, or 0 where all are smaller.
pub open spec fn max_or_zero(s: Seq<int>) -> int
    decreases s.len(),
{
    if s.len() == 0 {
        0
    } else {
        let m = max_or_zero(s.drop_last());
        if s.last() > m {
            s.last()
        } else {
            m
        }
    }
}

pub open spec fn text_width(cs: Seq<ShapedCluster>) -> int {
    max_or_zero(line_widths(cs))
}

pub open spec fn text_height(m: LineMetrics, cs: Seq<ShapedCluster>) -> int {
    m.ascent + m.descent + (line_count(cs) - 1) * m.line_height()
}

/// Shift that puts the normalised anchor `a` (in 64ths) of an extent at the
/// origin: `-(a/64 + 1/2) * extent`, rounded down before the negation.
pub open spec fn anchor_offset(a: int, extent: int) -> int {
    -(((a + 32) * extent) / 64)
}

/// Horizontal padding of a line of width `line_width` in a text of width
/// `text_width`.
pub open spec fn padding(j: JustifyOutlinedText, text_width: int, line_width: int) -> int {
    match j {
        JustifyOutlinedText::Left => 0,
        JustifyOutlinedText::Center => (text_width - line_width) / 2,
        JustifyOutlinedText::Right => text_width - line_width,
    }
}

/// Horizontal shift of every glyph on line `i`.
pub open spec fn line_shift_x(
    j: JustifyOutlinedText,
    anchor: Anchor,
    cs: Seq<ShapedCluster>,
    i: int,
) -> int {
    anchor_offset(anchor.x as int, text_width(cs)) + padding(j, text_width(cs), line_widths(cs)[i])
}

/// Vertical shift of every glyph on line `i`: later lines sit lower.
pub open spec fn line_shift_y(m: LineMetrics, anchor: Anchor, cs: Seq<ShapedCluster>, i: int) -> int {
    anchor_offset(anchor.y as int, text_height(m, cs)) + (line_count(cs) - 1 - i) * m.line_height()
}

/// A coverage bitmap painted in `color` and placed with its pen position
/// `pen` and the shifts of its line.
pub open spec fn placed(
    cov: Coverage,
    color: Rgba8,
    layer: Layer,
    pen: int,
    dx: int,
    dy: int,
    m: LineMetrics,
) -> GlyphImageView {
    GlyphImageView {
        offset_x: pen + cov.left * 64 + dx,
        offset_y: m.descent - cov.height * 64 + cov.top * 64 + dy,
        layer,
        width: cov.width,
        height: cov.height,
        pixels: colorized(cov.data@, color),
    }
}

pub open spec fn blank(c: Coverage) -> bool {
    c.width == 0 || c.height == 0
}

/// The images of one glyph: its outline, where the section asks for one and
/// it is not blank, then its fill, where that is not blank.
pub open spec fn glyph_images(
    section: OutlinedTextSection,
    g: ShapedGlyph,
    pen: int,
    dx: int,
    dy: int,
    m: LineMetrics,
) -> Seq<GlyphImageView> {
    let outline = match (section.outline, g.outline) {
        (OutlineStyle::Outline { width, color }, Some(o)) => if blank(o) {
            seq![]
        } else {
            seq![placed(o, color, Layer::Outline, pen, dx, dy, m)]
        },
        _ => seq![],
    };
    let fill = if blank(g.fill) {
        seq![]
    } else {
        seq![placed(g.fill, section.color, Layer::Fill, pen, dx, dy, m)]
    };
    outline + fill
}

/// The images of the first `g` glyphs of cluster `c`, which starts at `x0`.
pub open spec fn cluster_images(
    text: OutlinedText,
    c: ShapedCluster,
    x0: int,
    dx: int,
    dy: int,
    m: LineMetrics,
    g: int,
) -> Seq<GlyphImageView>
    decreases g,
{
    if g <= 0 {
        seq![]
    } else {
        cluster_images(text, c, x0, dx, dy, m, g - 1) + glyph_images(
            text.sections@[c.section as int],
            c.glyphs@[g - 1],
            x0 + glyph_pen(c.glyphs@, g - 1),
            dx,
            dy,
            m,
        )
    }
}

/// The images of the first `k` clusters, in shaping order.
pub open spec fn layout_images(
    text: OutlinedText,
    anchor: Anchor,
    m: LineMetrics,
    cs: Seq<ShapedCluster>,
    k: int,
) -> Seq<GlyphImageView>
    decreases k,
{
    if k <= 0 {
        seq![]
    } else if cs[k - 1].newline {
        layout_images(text, anchor, m, cs, k - 1)
    } else {
        let i = line_of(cs, k - 1);
        layout_images(text, anchor, m, cs, k - 1) + cluster_images(
            text,
            cs[k - 1],
            start_x(cs, k - 1),
            line_shift_x(text.justify, anchor, cs, i),
            line_shift_y(m, anchor, cs, i),
            m,
            cs[k - 1].glyphs@.len() as int,
        )
    }
}

/// Every glyph image of a text object, placed.
pub open spec fn text_layout(
    text: OutlinedText,
    anchor: Anchor,
    m: LineMetrics,
    cs: Seq<ShapedCluster>,
) -> Seq<GlyphImageView> {
    if text.sections@.len() == 0 {
        seq![]
    } else {
        layout_images(text, anchor, m, cs, cs.len() as int)
    }
}


pub open spec fn ints(s: Seq<i64>) -> Seq<int> {
    s.map_values(|v: i64| v as int)
}

/// Bound on a pen position or a line width, in fixed-point units.
pub open spec fn width_bound() -> int {
    0x4_0000_0000_0000
}

proof fn lemma_glyph_pen_bound(glyphs: Seq<ShapedGlyph>, g: int)
    requires
        0 <= g <= glyphs.len(),
        forall|j: int| 0 <= j < glyphs.len() ==> glyph_ok(#[trigger] glyphs[j]),
    ensures
        -g * MAX_ADVANCE <= glyph_pen(glyphs, g) <= g * MAX_ADVANCE,
    decreases g,
{
    if g > 0 {
        lemma_glyph_pen_bound(glyphs, g - 1);
        assert(glyph_ok(glyphs[g - 1]));
    }
}

proof fn lemma_cluster_advance_bound(c: ShapedCluster, n: nat)
    requires
        c.wf(n),
    ensures
        -0x4000_0000 <= cluster_advance(c) <= 0x4000_0000,
        forall|g: int|
            0 <= g <= c.glyphs@.len() ==> -0x4000_0000 <= #[trigger] glyph_pen(c.glyphs@, g)
                <= 0x4000_0000,
{
    assert forall|g: int| 0 <= g <= c.glyphs@.len() implies -0x4000_0000 <= #[trigger] glyph_pen(
        c.glyphs@,
        g,
    ) <= 0x4000_0000 by {
        lemma_glyph_pen_bound(c.glyphs@, g);
    }
}

proof fn lemma_start_x_bound(cs: Seq<ShapedCluster>, k: int, n: nat)
    requires
        clusters_ok(cs, n),
        0 <= k <= cs.len(),
    ensures
        -k * 0x4000_0000 <= start_x(cs, k) <= k * 0x4000_0000,
        0 <= line_of(cs, k) <= k,
        closed_widths(cs, k).len() == line_of(cs, k),
        forall|i: int|
            0 <= i < closed_widths(cs, k).len() ==> -width_bound() <= #[trigger] closed_widths(
                cs,
                k,
            )[i] <= width_bound(),
    decreases k,
{
    if k > 0 {
        lemma_start_x_bound(cs, k - 1, n);
        assert(cs[k - 1].wf(n));
        lemma_cluster_advance_bound(cs[k - 1], n);
    }
}

proof fn lemma_line_of_monotone(cs: Seq<ShapedCluster>, k: int, j: int)
    requires
        0 <= k <= j <= cs.len(),
    ensures
        line_of(cs, k) <= line_of(cs, j),
    decreases j - k,
{
    if k < j {
        lemma_line_of_monotone(cs, k, j - 1);
    }
}

proof fn lemma_max_or_zero(s: Seq<int>, b: int)
    requires
        b >= 0,
        forall|i: int| 0 <= i < s.len() ==> -b <= #[trigger] s[i] <= b,
    ensures
        0 <= max_or_zero(s) <= b,
        forall|i: int| 0 <= i < s.len() ==> #[trigger] s[i] <= max_or_zero(s),
    decreases s.len(),
{
    if s.len() > 0 {
        lemma_max_or_zero(s.drop_last(), b);
        assert forall|i: int| 0 <= i < s.len() implies #[trigger] s[i] <= max_or_zero(s) by {
            if i < s.len() - 1 {
                assert(s[i] == s.drop_last()[i]);
            }
        }
    }
}

/// Facts on the measured lines that the placement of glyphs relies on.
proof fn lemma_lines(cs: Seq<ShapedCluster>, n: nat)
    requires
        clusters_ok(cs, n),
    ensures
        line_widths(cs).len() == line_count(cs),
        1 <= line_count(cs) <= MAX_CLUSTERS + 1,
        forall|i: int|
            0 <= i < line_widths(cs).len() ==> -width_bound() <= #[trigger] line_widths(cs)[i]
                <= text_width(cs),
        0 <= text_width(cs) <= width_bound(),
{
    lemma_start_x_bound(cs, cs.len() as int, n);
    let w = line_widths(cs);
    assert forall|i: int| 0 <= i < w.len() implies -width_bound() <= #[trigger] w[i]
        <= width_bound() by {
        if i < w.len() - 1 {
            assert(w[i] == closed_widths(cs, cs.len() as int)[i]);
        }
    }
    lemma_max_or_zero(w, width_bound());
}

fn cluster_advance_exec(c: &ShapedCluster, Ghost(n): Ghost<nat>) -> (r: i64)
    requires
        c.wf(n),
    ensures
        r == cluster_advance(*c),
{
    proof {
        lemma_cluster_advance_bound(*c, n);
    }
    let mut x: i64 = 0;
    let mut g: usize = 0;
    while g < c.glyphs.len()
        invariant
            c.wf(n),
            g <= c.glyphs@.len(),
            x == glyph_pen(c.glyphs@, g as int),
            forall|g: int|
                0 <= g <= c.glyphs@.len() ==> -0x4000_0000 <= #[trigger] glyph_pen(c.glyphs@, g)
                    <= 0x4000_0000,
        decreases c.glyphs@.len() - g,
    {
        assert(glyph_ok(c.glyphs@[g as int]));
        x = x + c.glyphs[g].advance;
        g = g + 1;
    }
    x
}

/// Widths of the lines, first line first: one more than there are line
/// breaks.
pub fn measure_lines(clusters: &Vec<ShapedCluster>, n_sections: usize) -> (w: Vec<i64>)
    requires
        clusters_ok(clusters@, n_sections as nat),
    ensures
        ints(w@) == line_widths(clusters@),
{
    let ghost n = n_sections as nat;
    let cs = Ghost(clusters@);
    let mut widths: Vec<i64> = Vec::new();
    let mut x: i64 = 0;
    let mut k: usize = 0;
    while k < clusters.len()
        invariant
            cs@ == clusters@,
            clusters_ok(cs@, n),
            k <= cs@.len(),
            x == start_x(cs@, k as int),
            ints(widths@) == closed_widths(cs@, k as int),
        decreases cs@.len() - k,
    {
        proof {
            lemma_start_x_bound(cs@, k as int, n);
            lemma_start_x_bound(cs@, k as int + 1, n);
            assert(cs@[k as int].wf(n));
        }
        let c = &clusters[k];
        if c.newline {
            widths.push(x);
            proof {
                assert(ints(widths@) =~= closed_widths(cs@, k as int + 1));
            }
            x = 0;
        } else {
            let adv = cluster_advance_exec(c, Ghost(n));
            x = x + adv;
        }
        k = k + 1;
    }
    widths.push(x);
    proof {
        assert(ints(widths@) =~= line_widths(cs@));
    }
    widths
}

/// The largest width, or 0 where all are smaller.
fn max_width(w: &Vec<i64>) -> (r: i64)
    ensures
        r == max_or_zero(ints(w@)),
{
    let mut m: i64 = 0;
    let mut i: usize = 0;
    while i < w.len()
        invariant
            i <= w@.len(),
            m == max_or_zero(ints(w@).take(i as int)),
        decreases w@.len() - i,
    {
        proof {
            assert(ints(w@).take(i as int + 1).drop_last() =~= ints(w@).take(i as int));
        }
        if w[i] > m {
            m = w[i];
        }
        i = i + 1;
    }
    proof {
        assert(ints(w@).take(w@.len() as int) =~= ints(w@));
    }
    m
}

fn anchor_offset_exec(a: i64, extent: i64) -> (r: i64)
    requires
        -32 <= a <= 32,
        -0x80_0000_0000_0000 <= extent <= 0x80_0000_0000_0000,
    ensures
        r == anchor_offset(a as int, extent as int),
{
    let f: i64 = a + 32;
    assert(-64 * 0x80_0000_0000_0000 <= f * extent <= 64 * 0x80_0000_0000_0000) by (nonlinear_arith)
        requires
            0 <= f <= 64,
            -0x80_0000_0000_0000 <= extent <= 0x80_0000_0000_0000,
    ;
    let p: i64 = f * extent;
    if p >= 0 {
        -((p as u64 / 64) as i64)
    } else {
        let q: u64 = ((-p) as u64 + 63) / 64;
        q as i64
    }
}

fn padding_exec(j: JustifyOutlinedText, text_width: i64, line_width: i64) -> (r: i64)
    requires
        line_width <= text_width,
        text_width - line_width <= i64::MAX,
    ensures
        r == padding(j, text_width as int, line_width as int),
{
    match j {
        JustifyOutlinedText::Left => 0,
        JustifyOutlinedText::Center => (((text_width - line_width) as u64) / 2) as i64,
        JustifyOutlinedText::Right => text_width - line_width,
    }
}

pub open spec fn shift_bound() -> int {
    0x100_0000_0000_0000
}

fn push_placed(
    out: &mut Vec<GlyphImage>,
    cov: &Coverage,
    color: Rgba8,
    layer: Layer,
    pen: i64,
    dx: i64,
    dy: i64,
    m: LineMetrics,
)
    requires
        coverage_ok(*cov),
        m.wf(),
        -shift_bound() <= pen <= shift_bound(),
        -shift_bound() <= dx <= shift_bound(),
        -shift_bound() <= dy <= shift_bound(),
    ensures
        views(final(out)@) == views(old(out)@).push(placed(*cov, color, layer, pen as int, dx as int, dy as int, m)),
{
    let image = bitmap_to_image(cov, color);
    let offset_x = pen + cov.left as i64 * 64 + dx;
    let offset_y = m.descent - cov.height as i64 * 64 + cov.top as i64 * 64 + dy;
    out.push(GlyphImage { offset_x, offset_y, layer, image });
    proof {
        assert(views(out@) =~= views(old(out)@).push(
            placed(*cov, color, layer, pen as int, dx as int, dy as int, m),
        ));
    }
}

fn push_glyph_images(
    out: &mut Vec<GlyphImage>,
    section: &OutlinedTextSection,
    g: &ShapedGlyph,
    pen: i64,
    dx: i64,
    dy: i64,
    m: LineMetrics,
)
    requires
        glyph_ok(*g),
        m.wf(),
        -shift_bound() <= pen <= shift_bound(),
        -shift_bound() <= dx <= shift_bound(),
        -shift_bound() <= dy <= shift_bound(),
    ensures
        views(final(out)@) == views(old(out)@) + glyph_images(*section, *g, pen as int, dx as int, dy as int, m),
{
    let ghost start = views(out@);
    match (&section.outline, &g.outline) {
        (OutlineStyle::Outline { width, color }, Some(o)) => {
            if !(o.width == 0 || o.height == 0) {
                push_placed(out, o, *color, Layer::Outline, pen, dx, dy, m);
            }
        },
        _ => {},
    }
    if !(g.fill.width == 0 || g.fill.height == 0) {
        push_placed(out, &g.fill, section.color, Layer::Fill, pen, dx, dy, m);
    }
    proof {
        assert(views(out@) =~= start + glyph_images(*section, *g, pen as int, dx as int, dy as int, m));
    }
}

/// Places every glyph of a shaped text: line breaks start new lines, each
/// line is justified within the widest one, and the whole block is shifted
/// so that the anchor point lies at the origin. Outline images precede the
/// fill image of the same glyph; a text with no sections has no images.
pub fn create_glyph_images(
    text: &OutlinedText,
    anchor: Anchor,
    metrics: LineMetrics,
    clusters: &Vec<ShapedCluster>,
) -> (r: Vec<GlyphImage>)
    requires
        anchor.wf(),
        metrics.wf(),
        clusters_ok(clusters@, text.sections@.len()),
    ensures
        views(r@) == text_layout(*text, anchor, metrics, clusters@),
{
    let mut out: Vec<GlyphImage> = Vec::new();
    if text.sections.len() == 0 {
        proof {
            assert(views(out@) =~= seq![]);
        }
        return out;
    }
    let ghost n = text.sections@.len();
    let ghost cs = clusters@;
    proof {
        lemma_lines(cs, n);
    }
    let widths = measure_lines(clusters, text.sections.len());
    let tw: i64 = max_width(&widths);
    let line_height: i64 = metrics.ascent + metrics.descent + metrics.leading;
    let n_lines: usize = widths.len();
    assert(ints(widths@).len() == widths@.len());
    assert(-0x10_0000_0000_0000 <= (n_lines - 1) as i64 * line_height <= 0x10_0000_0000_0000)
        by (nonlinear_arith)
        requires
            1 <= n_lines <= MAX_CLUSTERS + 1,
            -0x1_0000_0000 <= line_height <= 0x1_0000_0000,
    ;
    let th: i64 = metrics.ascent + metrics.descent + (n_lines - 1) as i64 * line_height;
    let anchor_x = anchor_offset_exec(anchor.x, tw);
    let anchor_y = anchor_offset_exec(anchor.y, th);
    assert(-0x80_0000_0000_0000 <= anchor_x <= 0x80_0000_0000_0000) by (nonlinear_arith)
        requires
            anchor_x == -(((anchor.x + 32) * tw) / 64),
            -32 <= anchor.x <= 32,
            0 <= tw <= 0x4_0000_0000_0000,
    ;
    assert(-0x80_0000_0000_0000 <= anchor_y <= 0x80_0000_0000_0000) by (nonlinear_arith)
        requires
            anchor_y == -(((anchor.y + 32) * th) / 64),
            -32 <= anchor.y <= 32,
            -0x20_0000_0000_0000 <= th <= 0x20_0000_0000_0000,
    ;
    let mut x: i64 = 0;
    let mut line: usize = 0;
    let mut k: usize = 0;
    while k < clusters.len()
        invariant
            cs == clusters@,
            n == text.sections@.len(),
            n > 0,
            clusters_ok(cs, n),
            anchor.wf(),
            metrics.wf(),
            k <= cs.len(),
            x == start_x(cs, k as int),
            line == line_of(cs, k as int),
            ints(widths@) == line_widths(cs),
            n_lines == widths@.len(),
            n_lines == line_count(cs),
            n_lines <= MAX_CLUSTERS + 1,
            tw == text_width(cs),
            th == text_height(metrics, cs),
            line_height == metrics.line_height(),
            anchor_x == anchor_offset(anchor.x as int, tw as int),
            anchor_y == anchor_offset(anchor.y as int, th as int),
            -0x80_0000_0000_0000 <= anchor_x <= 0x80_0000_0000_0000,
            -0x80_0000_0000_0000 <= anchor_y <= 0x80_0000_0000_0000,
            forall|i: int|
                0 <= i < line_widths(cs).len() ==> -width_bound() <= #[trigger] line_widths(cs)[i]
                    <= text_width(cs),
            0 <= text_width(cs) <= width_bound(),
            views(out@) == layout_images(*text, anchor, metrics, cs, k as int),
        decreases cs.len() - k,
    {
        proof {
            lemma_start_x_bound(cs, k as int, n);
            lemma_line_of_monotone(cs, k as int, cs.len() as int);
            assert(cs[k as int].wf(n));
            lemma_cluster_advance_bound(cs[k as int], n);
        }
        let c = &clusters[k];
        if c.newline {
            x = 0;
            line = line + 1;
        } else {
            let line_width = widths[line];
            assert(line_width == line_widths(cs)[line as int]);
            let dx = anchor_x + padding_exec(text.justify, tw, line_width);
            assert(-0x10_0000_0000_0000 <= (n_lines - 1 - line) as i64 * line_height
                <= 0x10_0000_0000_0000) by (nonlinear_arith)
                requires
                    0 <= line < n_lines <= MAX_CLUSTERS + 1,
                    -0x1_0000_0000 <= line_height <= 0x1_0000_0000,
            ;
            let dy = anchor_y + (n_lines - 1 - line) as i64 * line_height;
            let ghost section = text.sections@[c.section as int];
            let ghost before = views(out@);
            let mut pen: i64 = x;
            let mut g: usize = 0;
            while g < c.glyphs.len()
                invariant
                    c.wf(n),
                    n == text.sections@.len(),
                    metrics.wf(),
                    g <= c.glyphs@.len(),
                    section == text.sections@[c.section as int],
                    -width_bound() <= x <= width_bound(),
                    -shift_bound() <= dx <= shift_bound(),
                    -shift_bound() <= dy <= shift_bound(),
                    pen == x + glyph_pen(c.glyphs@, g as int),
                    forall|g: int|
                        0 <= g <= c.glyphs@.len() ==> -0x4000_0000 <= #[trigger] glyph_pen(
                            c.glyphs@,
                            g,
                        ) <= 0x4000_0000,
                    views(out@) == before + cluster_images(
                        *text,
                        *c,
                        x as int,
                        dx as int,
                        dy as int,
                        metrics,
                        g as int,
                    ),
                decreases c.glyphs@.len() - g,
            {
                assert(glyph_ok(c.glyphs@[g as int]));
                let ghost mid = views(out@);
                push_glyph_images(
                    &mut out,
                    &text.sections[c.section as usize],
                    &c.glyphs[g],
                    pen,
                    dx,
                    dy,
                    metrics,
                );
                pen = pen + c.glyphs[g].advance;
                g = g + 1;
                proof {
                    assert(views(out@) =~= before + cluster_images(
                        *text,
                        *c,
                        x as int,
                        dx as int,
                        dy as int,
                        metrics,
                        g as int,
                    ));
                }
            }
            proof {
                assert(dx == line_shift_x(text.justify, anchor, cs, line as int));
                assert(dy == line_shift_y(metrics, anchor, cs, line as int));
                assert(views(out@) == layout_images(*text, anchor, metrics, cs, k as int + 1));
            }
            x = pen;
        }
        k = k + 1;
    }
    proof {
        assert(views(out@) == text_layout(*text, anchor, metrics, cs));
    }
    out
}

} // verus!
