use fntforge::error::Error;
use fntforge::pack::{pack_glyphs, PackOptions};

#[test]
fn packs_several_rects() {
    let sizes = vec![(10, 10), (20, 8), (6, 6)];
    let (g, pages) = pack_glyphs(&sizes, &PackOptions::default()).unwrap();
    assert_eq!(pages.len(), 1);
    assert_eq!(g.len(), 3);
    assert!(pages[0].width >= 20);
    assert!(pages[0].height < 200, "should pack in rows not a column");
}

#[test]
fn default_options() {
    let o = PackOptions::default();
    assert_eq!(o.max_size, 2048);
    assert_eq!(o.padding, 1);
    assert_eq!(o.spacing, 1);
    assert!(!o.power_of_two);
    assert!(!o.square);
}

#[test]
fn nothing_to_pack_is_an_error() {
    let r = pack_glyphs(&[], &PackOptions::default());
    assert!(matches!(r, Err(Error::Empty)));
}

#[test]
fn too_large_glyph_is_refused() {
    let mut o = PackOptions::default();
    o.max_size = 16;
    // 15 + gap 1 fits, 16 + 1 does not
    assert!(pack_glyphs(&[(15, 15)], &o).is_ok());
    let r = pack_glyphs(&[(16, 4)], &o);
    assert!(matches!(r, Err(Error::AtlasTooSmall(16))));
}

fn overlaps(a: (u32, u32, u32, u32), b: (u32, u32, u32, u32), gap: u32) -> bool {
    a.0 < b.0 + b.2 + gap && b.0 < a.0 + a.2 + gap && a.1 < b.1 + b.3 + gap && b.1 < a.1 + a.3 + gap
}

#[test]
fn glyphs_keep_size_stay_inside_and_apart() {
    let sizes = vec![(10, 12), (30, 5), (7, 7), (7, 20), (1, 1), (25, 9)];
    let mut o = PackOptions::default();
    o.max_size = 40;
    o.spacing = 2;
    let (g, pages) = pack_glyphs(&sizes, &o).unwrap();
    assert_eq!(g.len(), sizes.len());
    for p in &g {
        assert_eq!((p.w, p.h), sizes[p.index]);
        let page = &pages[p.page as usize];
        assert!(p.x + p.w <= page.width && p.y + p.h <= page.height);
        assert!(page.width <= 40 && page.height <= 40);
    }
    for (i, a) in g.iter().enumerate() {
        for b in g.iter().skip(i + 1) {
            if a.page == b.page {
                assert!(!overlaps((a.x, a.y, a.w, a.h), (b.x, b.y, b.w, b.h), 2));
            }
        }
    }
    let mut idx: Vec<usize> = g.iter().map(|p| p.index).collect();
    idx.sort();
    assert_eq!(idx, vec![0, 1, 2, 3, 4, 5]);
}

#[test]
fn overflow_goes_to_more_pages() {
    let sizes = vec![(10, 10); 20];
    let mut o = PackOptions::default();
    o.max_size = 24;
    let (g, pages) = pack_glyphs(&sizes, &o).unwrap();
    assert!(pages.len() >= 5);
    assert!(g.iter().all(|p| (p.page as usize) < pages.len()));
}

#[test]
fn power_of_two_and_square_pages() {
    let mut o = PackOptions::default();
    o.power_of_two = true;
    o.square = true;
    let (_, pages) = pack_glyphs(&[(20, 5), (3, 3)], &o).unwrap();
    assert_eq!(pages.len(), 1);
    assert_eq!(pages[0].width, pages[0].height);
    assert!(pages[0].width.is_power_of_two());
    assert!(pages[0].width >= 21);
}
