use fntforge::charset::{extract_chars, glyph_chars, preset_chars, CharsetPreset};

#[test]
fn extract_adds_space_and_dedups() {
    let s = extract_chars("aa中中b");
    assert!(s.contains(' '));
    assert_eq!(s.chars().filter(|&c| c == 'a').count(), 1);
    assert!(s.contains('中'));
}

#[test]
fn extract_keeps_first_seen_order() {
    assert_eq!(extract_chars("ba\nab\tc\r"), "bac ");
    assert_eq!(extract_chars(""), " ");
    assert_eq!(extract_chars("x y"), "x y");
}

#[test]
fn extract_twice_is_extract_once() {
    let once = extract_chars("金币 1111HP+\n金");
    assert_eq!(once, "金币 1HP+");
    assert_eq!(extract_chars(&once), once);
}

#[test]
fn presets_hold_their_characters() {
    let ascii = preset_chars(CharsetPreset::Ascii);
    assert_eq!(ascii.chars().count(), 95);
    assert!(ascii.starts_with(" !\"#"));
    assert!(ascii.ends_with("|}~"));
    assert_eq!(preset_chars(CharsetPreset::Numbers), "0123456789+-x/%.,");
    assert_eq!(
        preset_chars(CharsetPreset::CommonPunct),
        " .,!?;:()[]{}<>+-*/=_%$#@&\"'`^~|\\"
    );
    assert_eq!(preset_chars(CharsetPreset::Custom), "");
    let latin = preset_chars(CharsetPreset::Latin1);
    assert_eq!(latin.chars().count(), 95 + 96);
    assert!(!latin.contains('\u{7f}'));
    assert!(!latin.contains('\u{85}'));
    assert!(latin.contains('\u{a0}'));
    assert!(latin.ends_with('ÿ'));
}

#[test]
fn glyph_chars_are_sorted_by_code_point() {
    let v = glyph_chars("中b a\nb+");
    assert_eq!(v, vec![' ', '+', 'a', 'b', '中']);
    for w in v.windows(2) {
        assert!((w[0] as u32) < (w[1] as u32));
    }
}

#[test]
fn common_hanzi_preset() {
    let zh = preset_chars(CharsetPreset::CommonZh);
    let cs: Vec<char> = zh.chars().collect();
    assert_eq!(cs.len(), 3755);
    assert!(zh.contains('啊') && zh.contains('的') && zh.contains('座') && zh.contains('金'));
    assert!(!zh.contains('亍'));
    for w in cs.windows(2) {
        assert!((w[0] as u32) < (w[1] as u32));
    }
    assert_eq!(cs[0], '一');
}

#[test]
fn extracting_a_preset_gives_it_back() {
    for p in [
        CharsetPreset::Ascii,
        CharsetPreset::Numbers,
        CharsetPreset::Latin1,
        CharsetPreset::CommonPunct,
        CharsetPreset::CommonZh,
        CharsetPreset::Custom,
    ] {
        let s = preset_chars(p);
        let want = if s.contains(' ') { s.clone() } else { format!("{s} ") };
        assert_eq!(extract_chars(&s), want, "{p:?}");
    }
}
