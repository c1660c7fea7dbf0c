use fntforge::fnt::write_fnt;
use fntforge::font::{GeneratedFont, GlyphImage};
use fntforge::raster::Image;

fn glyph(ch: char, x: u32, y: u32, w: u32, h: u32, xo: i32, yo: i32, xa: i32, page: u32) -> GlyphImage {
    GlyphImage {
        id: ch as u32,
        ch,
        image: Image(image::RgbaImage::new(w, h)),
        xoffset: xo,
        yoffset: yo,
        xadvance: xa,
        x,
        y,
        width: w,
        height: h,
        page,
        from_fallback: false,
    }
}

fn font(glyphs: Vec<GlyphImage>, pages: usize, kernings: Vec<(u32, u32, i32)>) -> GeneratedFont {
    GeneratedFont {
        face: "My\"Face".to_string(),
        size: 32,
        line_height: 40,
        base: 30,
        padding: 2,
        spacing: 1,
        scale_w: 64,
        scale_h: 64,
        glyphs,
        pages: (0..pages).map(|_| Image(image::RgbaImage::new(64, 64))).collect(),
        kernings,
        missing: vec![],
        fallback_used: vec![],
    }
}

fn char_line(id: u32, x: u32, y: u32, w: u32, h: u32, xo: i32, yo: i32, xa: i32, page: u32, letter: &str) -> String {
    format!(
        "char id={id:<5} x={x:<5} y={y:<5} width={w:<5} height={h:<5} xoffset={xo:<5} yoffset={yo:<5} xadvance={xa:<5} page={page}  chnl=15 letter=\"{letter}\"\n"
    )
}

#[test]
fn writes_bmfont_text() {
    let f = font(
        vec![
            glyph('B', 12, 1, 9, 11, -1, 3, 10, 0),
            glyph('A', 1, 1, 10, 11, 0, 3, 11, 0),
            glyph('"', 22, 1, 4, 5, 1, 2, 6, 0),
        ],
        1,
        vec![(65, 66, -2)],
    );
    let text = write_fnt(&f, "test").text;
    let mut expected = String::new();
    expected.push_str("info face=\"My'Face\" size=32 bold=0 italic=0 charset=\"\" unicode=1 stretchH=100 smooth=1 aa=1 padding=2,2,2,2 spacing=1,1 outline=0\n");
    expected.push_str("common lineHeight=40 base=30 scaleW=64 scaleH=64 pages=1 packed=0 alphaChnl=0 redChnl=0 greenChnl=0 blueChnl=0\n");
    expected.push_str("page id=0 file=\"test.png\"\n");
    expected.push_str("chars count=3\n");
    expected.push_str(&char_line(34, 22, 1, 4, 5, 1, 2, 6, 0, "\\\""));
    expected.push_str(&char_line(65, 1, 1, 10, 11, 0, 3, 11, 0, "A"));
    expected.push_str(&char_line(66, 12, 1, 9, 11, -1, 3, 10, 0, "B"));
    expected.push_str("kernings count=1\n");
    expected.push_str("kerning first=65    second=66    amount=-2\n");
    assert_eq!(text, expected);
}

#[test]
fn several_pages_are_numbered() {
    let f = font(vec![glyph('\n', 0, 0, 1, 1, 0, 0, 0, 1), glyph('中', 0, 0, 2, 2, 0, 0, 3, 0)], 2, vec![]);
    let text = write_fnt(&f, "gold").text;
    assert!(text.contains("page id=0 file=\"gold_0.png\"\n"));
    assert!(text.contains("page id=1 file=\"gold_1.png\"\n"));
    assert!(text.contains("pages=2 "));
    assert!(text.contains("letter=\"\\n\""));
    assert!(text.contains("letter=\"中\""));
    assert!(!text.contains("kernings"));
    let first = text.find("char id=10 ").unwrap();
    let second = text.find("char id=20013").unwrap();
    assert!(first < second);
}
