use outlined_text::{
    bitmap_to_image, blend_pixel, compose_glyph_images, create_glyph_images, layer_fits, measure_lines,
    recompute_text, split_layers, Anchor, Coverage, GlyphImage, JustifyOutlinedText, Layer,
    LineMetrics, OutlineFontLoaderError, OutlineStyle, OutlinedFontLoader, OutlinedFontStyle,
    OutlinedText, OutlinedTextImage, OutlinedTextImages, OutlinedTextSection, PassAction, Rgba8,
    RgbaImage, ShapedCluster, ShapedGlyph,
};

const PX: i64 = 64;

fn rgba(r: u8, g: u8, b: u8, a: u8) -> Rgba8 {
    Rgba8 { r, g, b, a }
}

fn cov(left: i32, top: i32, width: u32, height: u32) -> Coverage {
    Coverage { left, top, width, height, data: vec![255; (width * height) as usize] }
}

fn glyph(advance_px: i64, fill: Coverage, outline: Option<Coverage>) -> ShapedGlyph {
    ShapedGlyph { advance: advance_px * PX, fill, outline }
}

fn stroke_of(c: &Coverage) -> Coverage {
    cov(c.left - 1, c.top + 1, c.width + 2, c.height + 2)
}

fn cluster(newline: bool, g: ShapedGlyph) -> ShapedCluster {
    ShapedCluster { section: 0, newline, glyphs: vec![g] }
}

/// "Hi\nA" as a shaper and rasterizer would hand it over.
fn hi_a(outlined: bool) -> Vec<ShapedCluster> {
    let shapes = [(20, cov(1, 20, 3, 2)), (10, cov(2, 20, 1, 2)), (18, cov(0, 18, 4, 3))];
    let mut out = Vec::new();
    for (i, (adv, c)) in shapes.into_iter().enumerate() {
        if i == 2 {
            out.push(cluster(true, glyph(5, cov(0, 0, 0, 0), None)));
        }
        let o = if outlined { Some(stroke_of(&c)) } else { None };
        out.push(cluster(false, glyph(adv, c, o)));
    }
    out
}

fn text(outline: OutlineStyle, justify: JustifyOutlinedText) -> OutlinedText {
    OutlinedText {
        sections: vec![OutlinedTextSection {
            value: "Hi\nA".to_string(),
            color: rgba(255, 0, 0, 255),
            outline,
        }],
        font_style: OutlinedFontStyle { size: 32 * 64 },
        justify,
    }
}

fn metrics() -> LineMetrics {
    LineMetrics { ascent: 24 * PX, descent: 8 * PX, leading: 0 }
}

const CENTER: Anchor = Anchor { x: 0, y: 0 };

fn pixel(img: &RgbaImage, x: u32, y: u32) -> [u8; 4] {
    let i = ((y * img.width + x) * 4) as usize;
    [img.data[i], img.data[i + 1], img.data[i + 2], img.data[i + 3]]
}

#[test]
fn blend_over_clear_copies_source() {
    assert_eq!(blend_pixel(rgba(255, 0, 0, 255), rgba(0, 0, 0, 0)), rgba(255, 0, 0, 255));
}

#[test]
fn blend_truncates_each_division() {
    assert_eq!(blend_pixel(rgba(100, 50, 25, 128), rgba(10, 20, 30, 200)), rgba(26, 20, 20, 228));
}

#[test]
fn blend_saturates_channels() {
    assert_eq!(blend_pixel(rgba(255, 255, 255, 0), rgba(255, 255, 255, 0)), rgba(255, 255, 255, 0));
}

#[test]
fn colorizer_takes_alpha_from_coverage() {
    let c = Coverage { left: 0, top: 0, width: 2, height: 1, data: vec![10, 200] };
    let img = bitmap_to_image(&c, rgba(1, 2, 3, 99));
    assert_eq!((img.width, img.height), (2, 1));
    assert_eq!(img.data, vec![1, 2, 3, 10, 1, 2, 3, 200]);
}

#[test]
fn colorizer_keeps_empty_bitmaps_empty() {
    let img = bitmap_to_image(&cov(3, 4, 0, 0), rgba(1, 2, 3, 4));
    assert!(img.is_empty());
    assert!(img.data.is_empty());
}

#[test]
fn layout_places_hi_a() {
    let t = text(OutlineStyle::NoOutline, JustifyOutlinedText::Left);
    let gs = create_glyph_images(&t, CENTER, metrics(), &hi_a(false));
    let placed: Vec<(i64, i64, Layer)> = gs.iter().map(|g| (g.offset_x, g.offset_y, g.layer)).collect();
    assert_eq!(
        placed,
        vec![(-896, 1664, Layer::Fill), (448, 1664, Layer::Fill), (-960, -576, Layer::Fill)]
    );
    assert_eq!(pixel(&gs[0].image, 0, 0), [255, 0, 0, 255]);
}

#[test]
fn end_to_end_fill_only() {
    let t = text(OutlineStyle::NoOutline, JustifyOutlinedText::Left);
    let images = recompute_text(&t, CENTER, metrics(), &hi_a(false)).unwrap();
    assert_eq!(images.len(), 1);
    let img = &images[0];
    assert_eq!(img.layer, Layer::Fill);
    assert_eq!((img.x, img.y), (-960, -576));
    assert_eq!((img.image.width, img.image.height), (23, 37));
    assert_eq!(pixel(&img.image, 1, 0), [255, 0, 0, 255]);
    assert_eq!(pixel(&img.image, 0, 0), [0, 0, 0, 0]);
    assert_eq!(pixel(&img.image, 0, 34), [255, 0, 0, 255]);
}

#[test]
fn end_to_end_with_outline() {
    let outline = OutlineStyle::Outline { width: 2 * 64, color: rgba(0, 0, 0, 255) };
    let t = text(outline, JustifyOutlinedText::Left);
    let images = recompute_text(&t, CENTER, metrics(), &hi_a(true)).unwrap();
    assert_eq!(images.len(), 2);
    assert_eq!(images[0].layer, Layer::Outline);
    assert_eq!(images[0].layer.depth_thousandths(), -1);
    assert_eq!(images[1].layer, Layer::Fill);
    assert_eq!(images[1].layer.depth_thousandths(), 0);
    assert!(!images[0].image.is_empty());
    assert!(!images[1].image.is_empty());
}

#[test]
fn outlines_precede_fills_per_glyph() {
    let outline = OutlineStyle::Outline { width: 2 * 64, color: rgba(0, 0, 0, 255) };
    let t = text(outline, JustifyOutlinedText::Left);
    let gs = create_glyph_images(&t, CENTER, metrics(), &hi_a(true));
    let layers: Vec<Layer> = gs.iter().map(|g| g.layer).collect();
    assert_eq!(layers.len(), 6);
    for pair in layers.chunks(2) {
        assert_eq!(pair, &[Layer::Outline, Layer::Fill]);
    }
    let (fills, outlines) = split_layers(gs);
    assert_eq!((fills.len(), outlines.len()), (3, 3));
}

#[test]
fn recompute_twice_is_identical() {
    let t = text(OutlineStyle::NoOutline, JustifyOutlinedText::Center);
    let a = recompute_text(&t, CENTER, metrics(), &hi_a(false)).unwrap();
    let b = recompute_text(&t, CENTER, metrics(), &hi_a(false)).unwrap();
    assert_eq!(a.len(), b.len());
    for (x, y) in a.iter().zip(b.iter()) {
        assert_eq!((x.x, x.y, x.layer), (y.x, y.y, y.layer));
        assert_eq!(x.image.data, y.image.data);
    }
}

#[test]
fn empty_text_has_no_images_or_entry() {
    let mut t = text(OutlineStyle::NoOutline, JustifyOutlinedText::Left);
    t.sections.clear();
    let images = recompute_text(&t, CENTER, metrics(), &Vec::new()).unwrap();
    assert!(images.is_empty());
    let mut cache = OutlinedTextImages::new();
    cache.store(7, images);
    assert!(cache.get(7).is_none());
}

#[test]
fn empty_section_strings_have_no_images() {
    let t = text(OutlineStyle::NoOutline, JustifyOutlinedText::Left);
    let images = recompute_text(&t, CENTER, metrics(), &Vec::new()).unwrap();
    assert!(images.is_empty());
}

#[test]
fn line_breaks_give_one_more_line() {
    let cs = vec![
        cluster(false, glyph(7, cov(0, 0, 0, 0), None)),
        cluster(true, glyph(0, cov(0, 0, 0, 0), None)),
        cluster(true, glyph(0, cov(0, 0, 0, 0), None)),
        cluster(false, glyph(9, cov(0, 0, 0, 0), None)),
    ];
    assert_eq!(measure_lines(&cs, 1), vec![7 * PX, 0, 9 * PX]);
    assert_eq!(measure_lines(&hi_a(false), 1), vec![30 * PX, 18 * PX]);
}

#[test]
fn centered_lines_are_padded_by_half_the_difference() {
    let t = text(OutlineStyle::NoOutline, JustifyOutlinedText::Center);
    let gs = create_glyph_images(&t, CENTER, metrics(), &hi_a(false));
    // second line is 18 px wide in a 30 px wide text: 6 px on each side
    let padding = gs[2].offset_x - (-960);
    assert_eq!(padding, 6 * PX);
    assert_eq!(18 * PX + 2 * padding, 30 * PX);
    assert_eq!(gs[0].offset_x, -896);
}

#[test]
fn right_justified_lines_end_together() {
    let t = text(OutlineStyle::NoOutline, JustifyOutlinedText::Right);
    let gs = create_glyph_images(&t, CENTER, metrics(), &hi_a(false));
    assert_eq!(gs[2].offset_x, -960 + 12 * PX);
}

#[test]
fn bottom_left_anchor_puts_the_origin_at_the_corner() {
    let t = text(OutlineStyle::NoOutline, JustifyOutlinedText::Left);
    let gs = create_glyph_images(&t, Anchor { x: -32, y: -32 }, metrics(), &hi_a(false));
    assert_eq!(gs[2].offset_x, 0);
    assert_eq!(gs[2].offset_y, 512 - 192 + 1152);
}

fn placed(x: i64, y: i64, w: u32, h: u32, data: Vec<u8>) -> GlyphImage {
    GlyphImage { offset_x: x, offset_y: y, layer: Layer::Fill, image: RgbaImage { width: w, height: h, data } }
}

#[test]
fn opaque_glyphs_apart_are_copied_unchanged() {
    let gs = vec![
        placed(0, 0, 2, 1, vec![10, 20, 30, 255, 40, 50, 60, 255]),
        placed(3 * PX, 0, 1, 1, vec![70, 80, 90, 255]),
    ];
    let img: OutlinedTextImage = compose_glyph_images(&gs).unwrap();
    assert_eq!((img.image.width, img.image.height), (4, 1));
    assert_eq!(img.image.data, vec![10, 20, 30, 255, 40, 50, 60, 255, 0, 0, 0, 0, 70, 80, 90, 255]);
}

#[test]
fn later_glyphs_composite_over_earlier_ones() {
    let gs = vec![
        placed(0, 0, 1, 1, vec![100, 50, 25, 128]),
        placed(0, 0, 1, 1, vec![10, 20, 30, 200]),
    ];
    let img = compose_glyph_images(&gs).unwrap();
    // the second glyph is blended over the first, already in the canvas
    let expected = blend_pixel(rgba(10, 20, 30, 200), rgba(100, 50, 25, 128));
    assert_eq!(img.image.data, vec![expected.r, expected.g, expected.b, expected.a]);
}

#[test]
fn canvas_rows_run_downwards() {
    let gs = vec![
        placed(0, 0, 1, 1, vec![1, 1, 1, 255]),
        placed(0, 2 * PX, 1, 1, vec![2, 2, 2, 255]),
    ];
    let img = compose_glyph_images(&gs).unwrap();
    assert_eq!((img.image.width, img.image.height), (1, 3));
    assert_eq!(pixel(&img.image, 0, 0), [2, 2, 2, 255]);
    assert_eq!(pixel(&img.image, 0, 2), [1, 1, 1, 255]);
}

#[test]
fn empty_layer_composes_to_nothing() {
    assert!(compose_glyph_images(&Vec::new()).is_none());
}

#[test]
fn cache_plans_and_stores() {
    let mut cache = OutlinedTextImages::new();
    assert_eq!(cache.plan(1, false, false, false, true), PassAction::Recompute);
    assert_eq!(cache.plan(1, false, false, false, false), PassAction::Defer);
    let t = text(OutlineStyle::NoOutline, JustifyOutlinedText::Left);
    let images = recompute_text(&t, CENTER, metrics(), &hi_a(false)).unwrap();
    cache.store(1, images);
    assert_eq!(cache.get(1).map(|v| v.len()), Some(1));
    assert_eq!(cache.plan(1, false, false, false, true), PassAction::Keep);
    assert_eq!(cache.plan(1, false, false, true, true), PassAction::Recompute);
    assert_eq!(cache.plan(1, true, false, false, true), PassAction::Recompute);
    assert_eq!(cache.plan(1, false, true, false, true), PassAction::Recompute);
    cache.defer(1);
    assert!(cache.needs_recompute(1, false, false, false));
    cache.remove(1);
    assert!(cache.get(1).is_none());
}

#[test]
fn loader_accepts_a_font_header() {
    let bytes = vec![0, 1, 0, 0, 0, 0, 0, 0, 0, 0, 0, 0];
    let font = OutlinedFontLoader.load(bytes.clone()).unwrap();
    assert_eq!(font.offset(), 0);
    assert_eq!(font.data(), &bytes);
}

#[test]
fn loader_rejects_other_bytes() {
    let r = OutlinedFontLoader.load(vec![1, 2, 3, 4, 5]);
    assert!(matches!(r, Err(OutlineFontLoaderError::InvalidFont)));
}

#[test]
fn layer_fits_takes_ordinary_layers() {
    let gs = vec![placed(0, 0, 1, 1, vec![1, 2, 3, 4]), placed(5 * PX, 7, 2, 1, vec![0; 8])];
    assert!(layer_fits(&gs));
    assert!(layer_fits(&Vec::new()));
}

#[test]
fn layer_fits_rejects_mismatched_pixels() {
    let gs = vec![placed(0, 0, 2, 2, vec![1, 2, 3, 4])];
    assert!(!layer_fits(&gs));
}

#[test]
fn layer_fits_rejects_oversized_canvas() {
    let gs = vec![placed(0, 0, 1, 1, vec![1, 2, 3, 4]), placed(1 << 50, 0, 1, 1, vec![1, 2, 3, 4])];
    assert!(!layer_fits(&gs));
}
