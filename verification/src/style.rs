//! Colours and the plain settings of layer styles.

use vstd::prelude::*;
use vstd::string::StringSliceAdditionalSpecFns;
use vstd::utf8::is_char_boundary;
use crate::text::hex_char;

verus! {

/// An 8-bit RGBA colour.
#[derive(Clone, Copy, Debug, PartialEq, Eq, Structural)]
pub struct Rgba8 {
    pub r: u8,
    pub g: u8,
    pub b: u8,
    pub a: u8,
}

/// How a layer blends onto what is below.
#[derive(Clone, Copy, Debug, PartialEq, Eq, Structural)]
pub enum BlendMode {
    Normal,
    Multiply,
    Screen,
    Overlay,
    LinearDodge,
    ColorDodge,
    LinearBurn,
    ColorBurn,
}

impl Default for BlendMode {
    fn default() -> (r: Self)
        ensures
            r == BlendMode::Normal,
    {
        BlendMode::Normal
    }
}

/// Where a stroke lies relative to the glyph outline.
#[derive(Clone, Copy, Debug, PartialEq, Eq, Structural)]
pub enum StrokePosition {
    Outer,
    Center,
    Inner,
}

/// The falloff curve of a glow.
#[derive(Clone, Copy, Debug, PartialEq, Eq, Structural)]
pub enum Contour {
    Linear,
    Gaussian,
    Cone,
    Ring,
}

/// Horizontal alignment of preview text.
#[derive(Clone, Copy, Debug, PartialEq, Eq, Structural)]
pub enum AlignH {
    Left,
    Center,
    Right,
}

/// Vertical alignment of preview text.
#[derive(Clone, Copy, Debug, PartialEq, Eq, Structural)]
pub enum AlignV {
    Top,
    Middle,
    Baseline,
    Bottom,
}

/// Unicode `White_Space` characters, which `str::trim` removes.
pub open spec fn is_white_space(c: char) -> bool {
    c == '\t' || c == '\n' || c == '\u{0B}' || c == '\u{0C}' || c == '\r' || c == ' '
        || c == '\u{85}' || c == '\u{A0}' || c == '\u{1680}' || ('\u{2000}' <= c && c <= '\u{200A}')
        || c == '\u{2028}' || c == '\u{2029}' || c == '\u{202F}' || c == '\u{205F}' || c == '\u{3000}'
}

/// How many characters at the start of `s` satisfy `p`.
pub open spec fn lead_count(s: Seq<char>, p: spec_fn(char) -> bool) -> nat
    decreases s.len(),
{
    if s.len() == 0 || !p(s[0]) {
        0
    } else {
        1 + lead_count(s.drop_first(), p)
    }
}

/// How many characters at the end of `s` satisfy `p`.
pub open spec fn trail_count(s: Seq<char>, p: spec_fn(char) -> bool) -> nat
    decreases s.len(),
{
    if s.len() == 0 || !p(s.last()) {
        0
    } else {
        1 + trail_count(s.drop_last(), p)
    }
}

/// `s` without leading and trailing white space.
pub open spec fn trim_spec(s: Seq<char>) -> Seq<char> {
    let lead = lead_count(s, |c: char| is_white_space(c));
    let rest = s.skip(lead as int);
    rest.take(rest.len() - trail_count(rest, |c: char| is_white_space(c)))
}

/// `s` without its leading `#` characters.
pub open spec fn trim_hashes_spec(s: Seq<char>) -> Seq<char> {
    s.skip(lead_count(s, |c: char| c == '#') as int)
}

/// `str::trim`: `s` without leading and trailing white space.
#[verifier::external_body]
fn str_trim(s: &str) -> (r: &str)
    ensures
        r@ == trim_spec(s@),
{
    s.trim()
}

/// `str::trim_start_matches('#')`: `s` without its leading `#` characters.
#[verifier::external_body]
fn str_trim_hashes(s: &str) -> (r: &str)
    ensures
        r@ == trim_hashes_spec(s@),
{
    s.trim_start_matches('#')
}

/// The value of an ASCII hexadecimal digit.
pub open spec fn hex_value(b: u8) -> Option<u8> {
    if 48 <= b <= 57 {
        Some((b - 48) as u8)
    } else if 65 <= b <= 70 {
        Some((b - 55) as u8)
    } else if 97 <= b <= 102 {
        Some((b - 87) as u8)
    } else {
        None
    }
}

/// `u8::from_str_radix` on a two-byte text in base 16: two hex digits, or a
/// `+` and one hex digit.
pub open spec fn radix16_pair(b0: u8, b1: u8) -> Option<u8> {
    if b0 == 43 {
        hex_value(b1)
    } else {
        match (hex_value(b0), hex_value(b1)) {
            (Some(h), Some(l)) => Some((16 * h + l) as u8),
            _ => None,
        }
    }
}

/// Channel `i` of a hex colour: the two bytes at `i` read in base 16; 0 when
/// they are not there, do not start and end on character boundaries, or are not hex.
pub open spec fn hex_channel(b: Seq<u8>, i: int) -> u8 {
    if i + 2 <= b.len() && is_char_boundary(b, i) && is_char_boundary(b, i + 2) {
        match radix16_pair(b[i], b[i + 1]) {
            Some(v) => v,
            None => 0,
        }
    } else {
        0
    }
}

/// The colour a hex text names: `#rrggbbaa`, or `#rrggbb` with full alpha;
/// white space around and any number of leading `#` are ignored.
pub open spec fn from_hex_spec(hex: Seq<char>) -> Rgba8 {
    let b = vstd::utf8::encode_utf8(trim_hashes_spec(trim_spec(hex)));
    if b.len() >= 8 {
        Rgba8 { r: hex_channel(b, 0), g: hex_channel(b, 2), b: hex_channel(b, 4), a: hex_channel(b, 6) }
    } else {
        Rgba8 { r: hex_channel(b, 0), g: hex_channel(b, 2), b: hex_channel(b, 4), a: 255 }
    }
}

fn hex_value_exec(b: u8) -> (r: Option<u8>)
    ensures
        r == hex_value(b),
{
    if 48 <= b && b <= 57 {
        Some(b - 48)
    } else if 65 <= b && b <= 70 {
        Some(b - 55)
    } else if 97 <= b && b <= 102 {
        Some(b - 87)
    } else {
        None
    }
}

fn channel(h: &str, i: usize) -> (r: u8)
    requires
        i <= 6,
    ensures
        r == hex_channel(h.spec_bytes(), i as int),
{
    let b = h.as_bytes();
    if i + 2 <= b.len() && h.is_char_boundary(i) && h.is_char_boundary(i + 2) {
        let b0 = b[i];
        let b1 = b[i + 1];
        if b0 == 43 {
            match hex_value_exec(b1) {
                Some(v) => v,
                None => 0,
            }
        } else {
            match (hex_value_exec(b0), hex_value_exec(b1)) {
                (Some(hi), Some(lo)) => 16 * hi + lo,
                _ => 0,
            }
        }
    } else {
        0
    }
}

impl Rgba8 {
    pub fn new(r: u8, g: u8, b: u8, a: u8) -> (c: Self)
        ensures
            c == (Rgba8 { r, g, b, a }),
    {
        Self { r, g, b, a }
    }

    /// Parses `#rrggbb` or `#rrggbbaa`; a channel that cannot be read is 0.
    pub fn from_hex(hex: &str) -> (c: Self)
        ensures
            c == from_hex_spec(hex@),
    {
        let h = str_trim_hashes(str_trim(hex));
        assert(h.spec_bytes() == vstd::utf8::encode_utf8(trim_hashes_spec(trim_spec(hex@))));
        let ghost b = h.spec_bytes();
        let r = channel(h, 0);
        let g = channel(h, 2);
        let bl = channel(h, 4);
        if h.as_bytes().len() >= 8 {
            let a = channel(h, 6);
            assert(b.len() >= 8);
            Self::new(r, g, bl, a)
        } else {
            assert(b.len() < 8);
            Self::new(r, g, bl, 255)
        }
    }

    /// The same colour with alpha `a`.
    pub fn with_alpha(self, a: u8) -> (c: Self)
        ensures
            c == (Rgba8 { a, ..self }),
    {
        Self { a, ..self }
    }
}


/// Each channel as two hexadecimal digits, high digit first.
pub open spec fn hex_digits_of(cs: Seq<u8>, upper: bool) -> Seq<char> {
    Seq::new(
        2 * cs.len(),
        |i: int|
            if i % 2 == 0 {
                hex_char(cs[i / 2] as int / 16, upper)
            } else {
                hex_char(cs[i / 2] as int % 16, upper)
            },
    )
}

/// A colour written in hex: a `#` when `hash`, then the channels as hex digits.
pub open spec fn hex_colour_text(cs: Seq<u8>, hash: bool, upper: bool) -> Seq<char> {
    if hash {
        seq!['#'] + hex_digits_of(cs, upper)
    } else {
        hex_digits_of(cs, upper)
    }
}

/// A hex digit reads back as its value, is ASCII, and is neither white space, `#` nor `+`.
proof fn lemma_hex_digit(x: int, upper: bool)
    requires
        0 <= x < 16,
    ensures
        hex_value(hex_char(x, upper) as u8) == Some(x as u8),
        (hex_char(x, upper) as u32) < 128,
        hex_char(x, upper) as u8 != 43,
        !is_white_space(hex_char(x, upper)),
        hex_char(x, upper) != '#',
{
}

/// The hex digits of some channels, after the optional `#`, are what `from_hex` reads.
proof fn lemma_hex_text_digits(cs: Seq<u8>, hash: bool, upper: bool)
    requires
        cs.len() == 3 || cs.len() == 4,
    ensures
        trim_hashes_spec(trim_spec(hex_colour_text(cs, hash, upper))) == hex_digits_of(cs, upper),
{
    let d = hex_digits_of(cs, upper);
    let t = hex_colour_text(cs, hash, upper);
    let ws = |c: char| is_white_space(c);
    lemma_hex_digit(cs[0] as int / 16, upper);
    lemma_hex_digit(cs[cs.len() - 1] as int % 16, upper);
    assert(d[0] == hex_char(cs[0] as int / 16, upper));
    assert(d[d.len() - 1] == hex_char(cs[cs.len() - 1] as int % 16, upper));
    assert(t.last() == d.last());
    assert(lead_count(t, ws) == 0);
    assert(t.skip(0) =~= t);
    assert(trail_count(t, ws) == 0);
    assert(trim_spec(t) =~= t);
    let hashes = |c: char| c == '#';
    if hash {
        assert(t.drop_first() =~= d);
        assert(lead_count(d, hashes) == 0);
        assert(lead_count(t, hashes) == 1);
        assert(t.skip(1) =~= d);
    } else {
        assert(lead_count(t, hashes) == 0);
        assert(t.skip(0) =~= d);
    }
}

/// Reading the hex digits of some channels gives the channels back.
proof fn lemma_read_hex_digits(cs: Seq<u8>, upper: bool, k: int)
    requires
        cs.len() == 3 || cs.len() == 4,
        0 <= k < cs.len(),
    ensures
        vstd::utf8::encode_utf8(hex_digits_of(cs, upper)).len() == 2 * cs.len(),
        hex_channel(vstd::utf8::encode_utf8(hex_digits_of(cs, upper)), 2 * k) == cs[k],
{
    let d = hex_digits_of(cs, upper);
    assert forall|i: int| 0 <= i < d.len() implies '\0' <= #[trigger] d[i] <= '\u{7f}' by {
        lemma_hex_digit(cs[i / 2] as int / 16, upper);
        lemma_hex_digit(cs[i / 2] as int % 16, upper);
    }
    assert(vstd::utf8::is_ascii_chars(d));
    vstd::utf8::is_ascii_chars_encode_utf8(d);
    vstd::utf8::encode_utf8_valid_utf8(d);
    let b = vstd::utf8::encode_utf8(d);
    let (hi, lo) = (cs[k] as int / 16, cs[k] as int % 16);
    lemma_hex_digit(hi as int, upper);
    lemma_hex_digit(lo as int, upper);
    assert(d[2 * k] == hex_char(hi as int, upper));
    assert(d[2 * k + 1] == hex_char(lo as int, upper));
    assert(b[2 * k] == d[2 * k] as u8);
    assert(b[2 * k + 1] == d[2 * k + 1] as u8);
    vstd::utf8::is_char_boundary_iff_not_is_continuation_byte(b, 2 * k);
    if 2 * k + 2 < b.len() {
        lemma_hex_digit(cs[k + 1] as int / 16, upper);
        assert(d[2 * k + 2] == hex_char(cs[k + 1] as int / 16, upper));
        vstd::utf8::is_char_boundary_iff_not_is_continuation_byte(b, 2 * k + 2);
    } else {
        vstd::utf8::is_char_boundary_start_end_of_seq(b);
    }
    assert(radix16_pair(b[2 * k], b[2 * k + 1]) == Some((16 * hi + lo) as u8));
}

/// Law: a colour written as hex digits, with or without a `#`, in upper or lower case,
/// reads back as itself; written with three channels, it reads back opaque.
pub proof fn lemma_from_hex_round_trip(r: u8, g: u8, b: u8, a: u8, hash: bool, upper: bool)
    ensures
        from_hex_spec(hex_colour_text(seq![r, g, b, a], hash, upper)) == (Rgba8 { r, g, b, a }),
        from_hex_spec(hex_colour_text(seq![r, g, b], hash, upper)) == (Rgba8 { r, g, b, a: 255 }),
{
    let c4 = seq![r, g, b, a];
    let c3 = seq![r, g, b];
    lemma_hex_text_digits(c4, hash, upper);
    lemma_hex_text_digits(c3, hash, upper);
    lemma_read_hex_digits(c4, upper, 0);
    lemma_read_hex_digits(c4, upper, 1);
    lemma_read_hex_digits(c4, upper, 2);
    lemma_read_hex_digits(c4, upper, 3);
    lemma_read_hex_digits(c3, upper, 0);
    lemma_read_hex_digits(c3, upper, 1);
    lemma_read_hex_digits(c3, upper, 2);
}

} // verus!
