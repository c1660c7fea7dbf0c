use fntforge::error::Error;
use fntforge::font::GlyphImage;
use fntforge::layout::{
    assemble_font, choose_font, is_math_symbol, looks_like_hollow_box, next_raster_step, FontSlot,
    LayoutParams, RasterStep, Rastered,
};
use fntforge::pack::PackOptions;
use fntforge::raster::Image;

fn glyph(ch: char, w: u32, h: u32, xo: i32, yo: i32, xa: i32, colour: [u8; 4]) -> GlyphImage {
    GlyphImage {
        id: ch as u32,
        ch,
        image: Image(image::RgbaImage::from_pixel(w, h, image::Rgba(colour))),
        xoffset: xo,
        yoffset: yo,
        xadvance: xa,
        x: 0,
        y: 0,
        width: 0,
        height: 0,
        page: 0,
        from_fallback: false,
    }
}

fn drawn(g: GlyphImage, from_fallback: bool) -> Rastered {
    Rastered { ch: g.ch, glyph: g, missing: false, from_fallback }
}

fn missing(ch: char) -> Rastered {
    Rastered { ch, glyph: glyph(ch, 1, 1, 0, 0, 24, [0, 0, 0, 0]), missing: true, from_fallback: false }
}

fn params(tabular: bool) -> LayoutParams {
    LayoutParams {
        face: "Face".to_string(),
        size: 48,
        line_height: 50,
        base: 40,
        descent: -12,
        padding: 2,
        tabular_nums: tabular,
    }
}

#[test]
fn plus_is_centred_on_the_digits() {
    let rendered = vec![
        drawn(glyph('1', 8, 30, 1, 10, 10, [255, 0, 0, 255]), false),
        drawn(glyph('+', 12, 10, 0, 0, 14, [0, 255, 0, 255]), true),
    ];
    let f = assemble_font(params(false), rendered, &PackOptions::default()).unwrap();
    let one = f.glyphs.iter().find(|g| g.ch == '1').unwrap();
    let plus = f.glyphs.iter().find(|g| g.ch == '+').unwrap();
    let c1 = one.yoffset as f32 + one.height as f32 * 0.5;
    let cp = plus.yoffset as f32 + plus.height as f32 * 0.5;
    assert!((c1 - cp).abs() <= 1.5, "plus optical center {cp} vs digit {c1}");
    assert_eq!(plus.yoffset, 20);
    assert_eq!(one.yoffset, 10);
    assert_eq!(f.fallback_used, vec!['+']);
    assert!(f.missing.is_empty());
}

#[test]
fn tabular_digits_share_the_widest_advance() {
    let rendered = vec![
        drawn(glyph('1', 6, 20, 2, 5, 10, [1, 1, 1, 255]), false),
        drawn(glyph('7', 12, 20, 1, 5, 14, [2, 2, 2, 255]), false),
        drawn(glyph('A', 12, 20, 0, 5, 13, [3, 3, 3, 255]), false),
    ];
    let f = assemble_font(params(true), rendered, &PackOptions::default()).unwrap();
    let by = |c: char| f.glyphs.iter().find(|g| g.ch == c).unwrap();
    assert_eq!(by('1').xadvance, 14);
    assert_eq!(by('7').xadvance, 14);
    assert_eq!(by('1').xoffset, 4);
    assert_eq!(by('7').xoffset, 1);
    assert_eq!(by('A').xadvance, 13);
}

#[test]
fn proportional_digits_keep_their_advance() {
    let rendered = vec![
        drawn(glyph('1', 6, 20, 2, 5, 10, [1, 1, 1, 255]), false),
        drawn(glyph('7', 12, 20, 1, 5, 14, [2, 2, 2, 255]), false),
    ];
    let f = assemble_font(params(false), rendered, &PackOptions::default()).unwrap();
    assert_eq!(f.glyphs[0].xadvance, 10);
    assert_eq!(f.glyphs[1].xadvance, 14);
}

#[test]
fn atlas_holds_each_glyph_where_it_was_placed() {
    let rendered = vec![
        drawn(glyph('a', 5, 7, 0, 0, 6, [10, 20, 30, 255]), false),
        missing('b'),
        drawn(glyph('c', 9, 3, 0, 60, 6, [40, 50, 60, 255]), false),
    ];
    let f = assemble_font(params(false), rendered, &PackOptions::default()).unwrap();
    assert_eq!(f.missing, vec!['b']);
    assert_eq!(f.glyphs.len(), 2);
    assert_eq!(f.face, "Face");
    assert_eq!((f.size, f.base, f.padding, f.spacing), (48, 40, 2, 1));
    assert_eq!(f.line_height, 63);
    assert!(f.kernings.is_empty());
    assert_eq!(f.scale_w, f.pages[0].0.width());
    assert_eq!(f.scale_h, f.pages[0].0.height());
    for g in &f.glyphs {
        assert_eq!((g.width, g.height), (g.image.0.width(), g.image.0.height()));
        let page = &f.pages[g.page as usize].0;
        let want = *g.image.0.get_pixel(0, 0);
        for dy in 0..g.height {
            for dx in 0..g.width {
                assert_eq!(*page.get_pixel(g.x + dx, g.y + dy), want);
            }
        }
    }
}

#[test]
fn line_height_reaches_the_descent() {
    let rendered = vec![drawn(glyph('x', 5, 5, 0, 0, 6, [1, 2, 3, 4]), false)];
    let mut p = params(false);
    p.line_height = 10;
    let f = assemble_font(p, rendered, &PackOptions::default()).unwrap();
    assert_eq!(f.line_height, 52);
}

#[test]
fn nothing_drawn_is_an_error() {
    let r = assemble_font(params(false), vec![missing('a')], &PackOptions::default());
    assert!(matches!(r, Err(Error::Empty)));
}

#[test]
fn oversized_glyph_is_refused() {
    let mut o = PackOptions::default();
    o.max_size = 8;
    let r = assemble_font(params(false), vec![drawn(glyph('W', 8, 4, 0, 0, 9, [0, 0, 0, 255]), false)], &o);
    assert!(matches!(r, Err(Error::AtlasTooSmall(8))));
}

#[test]
fn face_choice_prefers_the_primary_face() {
    assert_eq!(choose_font(true, true, true, true, true), (FontSlot::Primary, false));
    assert_eq!(choose_font(false, true, true, true, true), (FontSlot::Latin, true));
    assert_eq!(choose_font(false, true, true, true, false), (FontSlot::Cjk, true));
    assert_eq!(choose_font(false, false, true, false, true), (FontSlot::Latin, true));
    assert_eq!(choose_font(false, false, false, false, true), (FontSlot::Primary, false));
}

#[test]
fn raster_steps() {
    // hollow box from a face that is not the Latin one, Latin has it: redraw
    assert_eq!(next_raster_step(false, true, false, true, true, false), RasterStep::RedrawLatin);
    // hollow box, chosen face lacks it: missing
    assert_eq!(next_raster_step(false, true, true, true, false, true), RasterStep::Missing);
    // primary face lacks it and no fallback: missing
    assert_eq!(next_raster_step(false, false, false, false, false, false), RasterStep::Missing);
    // a space is always kept
    assert_eq!(next_raster_step(true, true, false, true, false, false), RasterStep::Keep);
    assert_eq!(next_raster_step(false, false, false, false, true, false), RasterStep::Keep);
}

#[test]
fn math_symbols() {
    for c in ['+', '-', '−', '–', '—', '=', '*', '×', '÷', '±', '＋', '－'] {
        assert!(is_math_symbol(c));
    }
    assert!(!is_math_symbol('1'));
    assert!(!is_math_symbol('/'));
}

#[test]
fn hollow_box_detection() {
    let w = 7u32;
    let h = 7u32;
    let mut ring = vec![0u8; (w * h) as usize];
    for x in 0..w {
        ring[x as usize] = 255;
        ring[((h - 1) * w + x) as usize] = 255;
    }
    assert!(looks_like_hollow_box(&ring, w, h));
    let mut solid = ring.clone();
    solid[(3 * w + 3) as usize] = 200;
    assert!(!looks_like_hollow_box(&solid, w, h));
    assert!(!looks_like_hollow_box(&ring[..16], 4, 4));
    assert!(!looks_like_hollow_box(&[], 5, 5));
}
