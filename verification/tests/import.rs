use fntforge::import::{
    bytes_contains, find_next_f64_key, find_rgbs, find_unit, list_psd_layers, parse_asl,
    read_f64_after, scan_style_keys, ImportError,
};
use fntforge::import::style_colours;
use fntforge::style::{Rgba8, StrokePosition};

#[test]
fn psd_header_reject() {
    assert!(list_psd_layers(b"not a psd").is_err());
}

#[test]
fn asl_too_short() {
    assert!(parse_asl(&[0, 1, 2]).is_err());
}

#[test]
fn refusals_carry_their_message() {
    match list_psd_layers(&[0u8; 40]) {
        Err(ImportError::Parse(m)) => assert_eq!(m, "不是 PSD 文件"),
        other => panic!("unexpected {other:?}"),
    }
    let mut short = b"8BPS".to_vec();
    short.extend_from_slice(&[0u8; 21]);
    assert!(list_psd_layers(&short).is_err());
    match parse_asl(&[0u8; 7]) {
        Err(ImportError::Parse(m)) => assert_eq!(m, "ASL 文件太短"),
        other => panic!("unexpected {other:?}"),
    }
    assert!(parse_asl(&[0u8; 8]).is_ok());
}

fn utf16(s: &str) -> Vec<u8> {
    s.encode_utf16().flat_map(|u| u.to_le_bytes()).collect()
}

fn psd(body: &[u8]) -> Vec<u8> {
    let mut v = b"8BPS".to_vec();
    v.extend_from_slice(&[0u8; 22]);
    v.extend_from_slice(body);
    v
}

/// The layer-name scan written out plainly, to compare against.
fn reference_names(bytes: &[u8]) -> Vec<String> {
    let mut names = Vec::new();
    let mut run: Vec<char> = Vec::new();
    let mut k = 0;
    while k + 1 < bytes.len() {
        let u = u16::from_le_bytes([bytes[k], bytes[k + 1]]);
        if (0x20..=0x7e).contains(&u) || (0x4e00..=0x9fff).contains(&u) {
            run.push(char::from_u32(u as u32).unwrap());
            k += 2;
        } else {
            if run.len() >= 2 && !run.iter().all(|c| c.is_ascii_digit()) {
                names.push(run.iter().collect::<String>());
            }
            run.clear();
            k += 1;
        }
    }
    names.truncate(64);
    if names.is_empty() {
        names.push("背景".to_string());
    }
    names
}

#[test]
fn psd_layer_names_are_found() {
    let mut body = vec![0u8, 0];
    for part in [" Title", "1234", " 金币", "B", "AB"] {
        body.extend(utf16(part));
        body.extend([1u8, 0]);
    }
    let bytes = psd(&body);
    let layers = list_psd_layers(&bytes).unwrap();
    let names: Vec<String> = layers.iter().map(|l| l.name.clone()).collect();
    assert_eq!(names, reference_names(&bytes));
    assert_eq!(names, vec!["偂S", " Title", " 金币", "AB"]);
    assert!(layers.iter().all(|l| l.kind == "layer"));
}

#[test]
fn psd_without_names_lists_the_background() {
    let mut bytes = b"8BPS".to_vec();
    bytes.extend_from_slice(&[0u8; 30]);
    bytes[4] = 1;
    let layers = list_psd_layers(&bytes).unwrap();
    assert_eq!(layers.len(), 1);
    assert_eq!(layers[0].name, "背景");
    assert_eq!(layers[0].kind, "layer");
}

#[test]
fn psd_lists_at_most_64_layers() {
    let mut body = Vec::new();
    for i in 0..80 {
        body.extend(utf16(&format!(" L{i}")));
        body.extend([1u8, 0]);
    }
    let bytes = psd(&body);
    let layers = list_psd_layers(&bytes).unwrap();
    assert_eq!(layers.len(), 64);
    let names: Vec<String> = layers.iter().map(|l| l.name.clone()).collect();
    assert_eq!(names, reference_names(&bytes));
    assert_eq!(names[1], " L0");
    assert_eq!(names[63], " L62");
}

#[test]
fn byte_search() {
    assert!(bytes_contains(b"xxDrShyy", b"DrSh"));
    assert!(bytes_contains(b"DrSh", b"DrSh"));
    assert!(!bytes_contains(b"DrS", b"DrSh"));
    assert!(!bytes_contains(b"", b"a"));
    assert!(bytes_contains(b"abc", b"c"));
}

fn be(v: f64) -> [u8; 8] {
    v.to_bits().to_be_bytes()
}

#[test]
fn doubles_after_tags() {
    let mut b = b"doub".to_vec();
    b.extend(be(1.5));
    assert_eq!(read_f64_after(&b, 0), Some(1.5f64.to_bits()));
    let mut u = b"UntF#Pxl".to_vec();
    u.extend(be(-3.25));
    assert_eq!(read_f64_after(&u, 0), Some((-3.25f64).to_bits()));
    let raw = be(7.0);
    assert_eq!(read_f64_after(&raw, 0), Some(7.0f64.to_bits()));
    let mut nan = b"doub".to_vec();
    nan.extend(be(f64::NAN));
    assert_eq!(read_f64_after(&nan, 0), None);
    let mut inf = b"doub".to_vec();
    inf.extend(be(f64::INFINITY));
    assert_eq!(read_f64_after(&inf, 0), None);
    assert_eq!(read_f64_after(&b[..10], 0), None);
    assert_eq!(read_f64_after(&b, 12), None);
}

fn unit_key(key: &[u8], tag: &[u8], v: f64) -> Vec<u8> {
    let mut b = key.to_vec();
    b.extend_from_slice(tag);
    if tag == b"UntF" {
        b.extend_from_slice(b"#Pxl");
    }
    b.extend(be(v));
    b.extend([0u8; 4]);
    b
}

#[test]
fn unit_values() {
    assert_eq!(find_unit(&unit_key(b"Dstn", b"UntF", 4.0), b"Dstn"), Some(4.0f64.to_bits()));
    assert_eq!(find_unit(&unit_key(b"Sz  ", b"doub", 2.5), b"Sz  "), Some(2.5f64.to_bits()));
    assert_eq!(find_unit(&unit_key(b"Dstn", b"long", 4.0), b"Dstn"), None);
    assert_eq!(find_unit(&unit_key(b"Dstn", b"UntF", 4.0), b"blur"), None);
    // a negative size is found; its magnitude is what counts
    assert_eq!(find_unit(&unit_key(b"blur", b"doub", -6.0), b"blur"), Some((-6.0f64).to_bits()));
    // the largest double whose single-precision magnitude is below 10 000
    let below = f64::from_bits(0x40c3_87ff_efff_ffff);
    assert!(((below as f32).abs()) < 10_000.0);
    assert_eq!(find_unit(&unit_key(b"blur", b"doub", below), b"blur"), Some(below.to_bits()));
    let at = f64::from_bits(0x40c3_87ff_f000_0000);
    assert!(!(((at as f32).abs()) < 10_000.0));
    assert_eq!(find_unit(&unit_key(b"blur", b"doub", at), b"blur"), None);
    assert_eq!(find_unit(&unit_key(b"blur", b"doub", f64::NAN), b"blur"), None);
    // the first in-range value wins
    let mut two = unit_key(b"Angl", b"doub", 1.0e9);
    two.extend(unit_key(b"Angl", b"doub", 45.0));
    assert_eq!(find_unit(&two, b"Angl"), Some(45.0f64.to_bits()));
}

fn colour(r: f64, g: f64, b: f64) -> Vec<u8> {
    let mut v = b"Rd  doub".to_vec();
    v.extend(be(r));
    v.extend(b"Grn doub");
    v.extend(be(g));
    v.extend(b"Bl  doub");
    v.extend(be(b));
    v
}

#[test]
fn colours_in_order() {
    let mut bytes = colour(255.0, 0.0, 10.0);
    bytes.extend(colour(0.5, 0.25, 1.0));
    bytes.extend([0u8; 16]);
    let cs = find_rgbs(&bytes);
    assert_eq!(cs.len(), 2);
    assert_eq!(cs[0], (255.0f64.to_bits(), 0.0f64.to_bits(), 10.0f64.to_bits()));
    assert_eq!(cs[1], (0.5f64.to_bits(), 0.25f64.to_bits(), 1.0f64.to_bits()));
    assert_eq!(find_next_f64_key(&bytes, 0, b"Bl  "), Some(10.0f64.to_bits()));
}

#[test]
fn at_most_thirteen_colours() {
    let mut bytes = Vec::new();
    for i in 0..20 {
        bytes.extend(colour(i as f64, 0.0, 0.0));
    }
    bytes.extend([0u8; 16]);
    let cs = find_rgbs(&bytes);
    assert_eq!(cs.len(), 13);
    assert_eq!(cs[12].0, 12.0f64.to_bits());
}

#[test]
fn style_keys() {
    let mut bytes = colour(232.0, 196.0, 74.0);
    bytes.extend(colour(0.0, 0.0, 0.0));
    bytes.extend(b"DrSh");
    bytes.extend(unit_key(b"Dstn", b"UntF", 3.0));
    bytes.extend(unit_key(b"blur", b"UntF", 5.0));
    bytes.extend(b"FrFXInsFCtrF");
    bytes.extend(unit_key(b"Sz", b"UntF", 2.0));
    bytes.extend(b"GdFl");
    bytes.extend(unit_key(b"Angl", b"doub", 45.0));
    bytes.extend([0u8; 16]);
    let k = scan_style_keys(&bytes);
    assert_eq!(k.colors.len(), 2);
    assert!(k.drop_shadow);
    assert_eq!(k.shadow_distance, Some(3.0f64.to_bits()));
    assert_eq!(k.shadow_blur, Some(5.0f64.to_bits()));
    assert!(!k.outer_glow);
    assert_eq!(k.glow_blur, None);
    assert!(!k.inner_shadow && !k.inner_glow && !k.bevel && !k.color_overlay);
    assert!(k.stroke);
    assert_eq!(k.stroke_size, Some(2.0f64.to_bits()));
    assert_eq!(k.stroke_position, Some(StrokePosition::Inner));
    assert!(k.gradient_overlay);
    assert_eq!(k.gradient_angle, Some(45.0f64.to_bits()));
    let asl = parse_asl(&bytes).unwrap();
    assert_eq!(asl.stroke_position, Some(StrokePosition::Inner));
}

#[test]
fn unknown_bytes_give_no_style() {
    let k = scan_style_keys(&[7u8; 64]);
    assert!(k.colors.is_empty());
    assert!(!k.drop_shadow && !k.outer_glow && !k.inner_shadow && !k.inner_glow);
    assert!(!k.stroke && !k.color_overlay && !k.gradient_overlay && !k.bevel);
    assert_eq!(k.stroke_position, None);
    assert_eq!(k.gradient_angle, None);
}

/// An `.asl` file: version 2, `8BSL`, pattern version 3, the patterns, then the styles.
fn asl(patterns: &[u8], styles: &[Vec<u8>]) -> Vec<u8> {
    let mut v = vec![0u8, 2];
    v.extend(b"8BSL");
    v.extend([0u8, 3]);
    v.extend((patterns.len() as u32).to_be_bytes());
    v.extend(patterns);
    v.extend((styles.len() as u32).to_be_bytes());
    for st in styles {
        v.extend((st.len() as u32).to_be_bytes());
        v.extend(st);
    }
    v
}

#[test]
fn asl_uses_the_first_style() {
    let mut first = colour(232.0, 196.0, 74.0);
    first.extend(b"FrFXOutF");
    first.extend([0u8; 16]);
    let mut second = colour(1.0, 2.0, 3.0);
    second.extend(b"DrShOrGlebbl");
    second.extend([0u8; 16]);
    let bytes = asl(&[9, 9, 9], &[first, second]);
    let k = parse_asl(&bytes).unwrap();
    assert_eq!(k.colors.len(), 1);
    assert_eq!(k.colors[0].0, 232.0f64.to_bits());
    assert!(k.stroke);
    assert_eq!(k.stroke_position, Some(StrokePosition::Outer));
    assert!(!k.drop_shadow && !k.outer_glow && !k.bevel);
    // the whole file, read as one descriptor, would switch the shadow on
    assert!(scan_style_keys(&bytes).drop_shadow);
}

#[test]
fn asl_without_styles_reads_nothing() {
    let bytes = asl(b"DrSh", &[]);
    let k = parse_asl(&bytes).unwrap();
    assert!(!k.drop_shadow);
    assert!(k.colors.is_empty());
}

#[test]
fn cut_short_first_style_reads_to_the_end() {
    let mut bytes = asl(&[], &[b"SoFiIrSh".to_vec()]);
    let n = bytes.len();
    bytes[n - 9] = 0xff; // the style claims more bytes than the file holds
    let k = parse_asl(&bytes).unwrap();
    assert!(k.color_overlay && k.inner_shadow);
}

#[test]
fn effect_colours_from_the_found_colours() {
    let mut keys = scan_style_keys(b"DrShOrGlFrFXSoFi");
    let cs = vec![Rgba8::new(1, 1, 1, 255), Rgba8::new(2, 2, 2, 255), Rgba8::new(3, 3, 3, 255), Rgba8::new(4, 4, 4, 255)];
    let c = style_colours(&keys, &cs);
    assert_eq!(c.fill, Some(cs[0]));
    assert_eq!(c.shadow, Some(Rgba8::new(2, 2, 2, 160)));
    assert_eq!(c.glow, Some(Rgba8::new(3, 3, 3, 180)));
    assert_eq!(c.stroke, Some(cs[3]));
    assert_eq!(c.overlay, Some(cs[0]));
    let two = vec![cs[0], cs[1]];
    assert_eq!(style_colours(&keys, &two).glow, Some(Rgba8::new(1, 1, 1, 180)));
    keys.drop_shadow = false;
    keys.stroke = false;
    let none = style_colours(&keys, &vec![]);
    assert_eq!((none.fill, none.shadow, none.glow, none.stroke, none.overlay), (None, None, None, None, None));
}
