use fntforge::style::{BlendMode, Rgba8};

#[test]
fn hex_colours() {
    assert_eq!(Rgba8::from_hex("e8c44a"), Rgba8::new(0xe8, 0xc4, 0x4a, 255));
    assert_eq!(Rgba8::from_hex("  #000000a0 "), Rgba8::new(0, 0, 0, 0xa0));
    assert_eq!(Rgba8::from_hex("##fff3a0"), Rgba8::new(0xff, 0xf3, 0xa0, 255));
    assert_eq!(Rgba8::from_hex("zz10"), Rgba8::new(0, 0x10, 0, 255));
    assert_eq!(Rgba8::from_hex(""), Rgba8::new(0, 0, 0, 255));
    assert_eq!(Rgba8::from_hex("12345"), Rgba8::new(0x12, 0x34, 0, 255));
}

#[test]
fn with_alpha_keeps_colour() {
    let c = Rgba8::new(1, 2, 3, 4).with_alpha(160);
    assert_eq!(c, Rgba8::new(1, 2, 3, 160));
}

#[test]
fn default_blend_is_normal() {
    assert_eq!(BlendMode::default(), BlendMode::Normal);
}

#[test]
fn hex_round_trip() {
    for (r, g, b, a) in [(0u8, 0u8, 0u8, 0u8), (255, 255, 255, 255), (0x12, 0xab, 0x7f, 0x80), (9, 160, 15, 250)] {
        assert_eq!(Rgba8::from_hex(&format!("#{:02x}{:02x}{:02x}{:02x}", r, g, b, a)), Rgba8::new(r, g, b, a));
        assert_eq!(Rgba8::from_hex(&format!("{:02X}{:02X}{:02X}", r, g, b)), Rgba8::new(r, g, b, 255));
        assert_eq!(Rgba8::from_hex(&format!("{:02X}{:02X}{:02X}{:02X}", r, g, b, a)), Rgba8::new(r, g, b, a));
        assert_eq!(Rgba8::from_hex(&format!("#{:02x}{:02x}{:02x}", r, g, b)), Rgba8::new(r, g, b, 255));
    }
}
