use fntforge::font::GeneratedFont;
use fntforge::report::{lua_snippet, missing_report};

fn font(missing: Vec<char>, fallback_used: Vec<char>) -> GeneratedFont {
    GeneratedFont {
        face: "F".to_string(),
        size: 48,
        line_height: 50,
        base: 40,
        padding: 1,
        spacing: 1,
        scale_w: 1,
        scale_h: 1,
        glyphs: vec![],
        pages: vec![],
        kernings: vec![],
        missing,
        fallback_used,
    }
}

#[test]
fn empty_report_when_nothing_is_missing() {
    assert_eq!(missing_report(&font(vec![], vec![])), "");
}

#[test]
fn report_lists_missing_and_fallback_characters() {
    let r = missing_report(&font(vec!['中', 'A'], vec!['+']));
    assert_eq!(
        r,
        "缺字（源字体与后备字体都没有，未写入图集）：\nU+4E2D 中\nU+0041 A\n\n以下字符使用了后备字体（常见于标题美工字体缺「+」等符号）：\nU+002B +\n"
    );
    let only_fallback = missing_report(&font(vec![], vec!['\u{1F600}']));
    assert_eq!(
        only_fallback,
        "\n以下字符使用了后备字体（常见于标题美工字体缺「+」等符号）：\nU+1F600 \u{1F600}\n"
    );
}

#[test]
fn lua_snippet_uses_first_preview_line() {
    let s = lua_snippet("gold", "金币 \"1\"\nsecond line");
    assert_eq!(
        s,
        "-- FntForge 生成，把 gold.fnt 与 PNG 放在同一目录\nlocal lb = cc.Label:createWithBMFont(\"fonts/gold.fnt\", \"金币 \\\"1\\\"\", cc.TEXT_ALIGNMENT_CENTER)\nself:addChild(lb)\n"
    );
    let empty = lua_snippet("x", "");
    assert!(empty.contains("\"TEXT\""));
}
