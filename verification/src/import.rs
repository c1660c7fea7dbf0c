//! Read-only import of Photoshop layer styles (`.asl`, or the descriptor bytes of a
//! PSD) and of the layer names of a PSD. Photoshop is never launched; unknown keys
//! are ignored. Numbers are read as the raw bits of big-endian IEEE doubles.

use vstd::prelude::*;
use crate::style::{Rgba8, StrokePosition};
use crate::text::{char_from_u32, chars_to_string, str_chars};

verus! {

/// Why an import failed.
#[derive(Debug)]
pub enum ImportError {
    /// Reading the file failed.
    Io(std::io::Error),
    /// The bytes are not what the importer expects.
    Parse(String),
}

/// A layer found in a PSD.
#[derive(Clone, Debug)]
pub struct PsdLayer {
    pub name: String,
    pub kind: String,
}

/// The bytes of an ASCII text.
pub open spec fn ascii(s: Seq<char>) -> Seq<u8> {
    s.map_values(|c: char| c as u8)
}

/// The bytes of the ASCII text `s`.
fn ascii_bytes(s: &str) -> (r: Vec<u8>)
    ensures
        r@ == ascii(s@),
{
    let cs = str_chars(s);
    let mut out: Vec<u8> = Vec::new();
    let mut i: usize = 0;
    while i < cs.len()
        invariant
            i <= cs.len(),
            cs@ == s@,
            out@ == ascii(cs@.take(i as int)),
        decreases cs.len() - i,
    {
        out.push(cs[i] as u8);
        assert(cs@.take(i + 1) =~= cs@.take(i as int).push(cs@[i as int]));
        assert(ascii(cs@.take(i + 1)) =~= ascii(cs@.take(i as int)).push(cs@[i as int] as u8));
        i = i + 1;
    }
    assert(cs@.take(cs.len() as int) =~= cs@);
    out
}

/// `needle` occurs in `hay` starting at `i`.
pub open spec fn matches_at(hay: Seq<u8>, i: int, needle: Seq<u8>) -> bool {
    0 <= i && i + needle.len() <= hay.len() && hay.subrange(i, i + needle.len()) == needle
}

/// `needle` occurs somewhere in `hay`.
pub open spec fn contains_bytes(hay: Seq<u8>, needle: Seq<u8>) -> bool {
    exists|i: int| #[trigger] matches_at(hay, i, needle)
}

/// Whether `needle` occurs in `hay` starting at `i`.
fn bytes_match_at(hay: &[u8], i: usize, needle: &[u8]) -> (r: bool)
    ensures
        r == matches_at(hay@, i as int, needle@),
{
    if i > hay.len() || needle.len() > hay.len() - i {
        return false;
    }
    let n = hay.len();
    let mut k: usize = 0;
    while k < needle.len()
        invariant
            n == hay@.len(),
            i + needle@.len() <= hay@.len(),
            k <= needle@.len(),
            forall|j: int| 0 <= j < k ==> hay@[i + j] == needle@[j],
        decreases needle.len() - k,
    {
        if hay[i + k] != needle[k] {
            assert(hay@.subrange(i as int, i + needle@.len())[k as int] != needle@[k as int]);
            return false;
        }
        k = k + 1;
    }
    assert(hay@.subrange(i as int, i + needle@.len()) =~= needle@);
    true
}

/// Whether `needle` occurs in `hay`. The needle is not empty (an empty window
/// has no meaning here).
pub fn bytes_contains(hay: &[u8], needle: &[u8]) -> (r: bool)
    requires
        needle@.len() > 0,
    ensures
        r == contains_bytes(hay@, needle@),
{
    let mut i: usize = 0;
    while i < hay.len()
        invariant
            i <= hay@.len(),
            forall|j: int| 0 <= j < i ==> !#[trigger] matches_at(hay@, j, needle@),
        decreases hay.len() - i,
    {
        if bytes_match_at(hay, i, needle) {
            return true;
        }
        i = i + 1;
    }
    assert forall|j: int| !#[trigger] matches_at(hay@, j, needle@) by {
        if 0 <= j < i {
        }
    }
    false
}

/// The big-endian 64-bit integer whose bytes are `s[i..i + 8]`.
pub open spec fn be_u64(s: Seq<u8>, i: int) -> int {
    s[i] * 0x0100_0000_0000_0000 + s[i + 1] * 0x0001_0000_0000_0000 + s[i + 2] * 0x0000_0100_0000_0000
        + s[i + 3] * 0x0000_0001_0000_0000 + s[i + 4] * 0x0000_0000_0100_0000 + s[i + 5]
        * 0x0000_0000_0001_0000 + s[i + 6] * 0x0000_0000_0000_0100 + s[i + 7]
}

/// The big-endian 64-bit integer whose bytes are `bytes[i..i + 8]`.
fn read_be_u64(bytes: &[u8], i: usize) -> (r: u64)
    requires
        i + 8 <= bytes@.len(),
    ensures
        r == be_u64(bytes@, i as int),
{
    (bytes[i] as u64) * 0x0100_0000_0000_0000 + (bytes[i + 1] as u64) * 0x0001_0000_0000_0000
        + (bytes[i + 2] as u64) * 0x0000_0100_0000_0000 + (bytes[i + 3] as u64) * 0x0000_0001_0000_0000
        + (bytes[i + 4] as u64) * 0x0000_0000_0100_0000 + (bytes[i + 5] as u64) * 0x0000_0000_0001_0000
        + (bytes[i + 6] as u64) * 0x0000_0000_0000_0100 + (bytes[i + 7] as u64)
}

/// The bits of an IEEE double that is neither infinite nor NaN: its exponent is not all ones.
pub open spec fn is_finite_bits(b: u64) -> bool {
    (b >> 52u64) & 0x7ffu64 != 0x7ffu64
}

/// The bits of a double whose magnitude, rounded to single precision, is below 10 000
/// (and which is finite): the magnitude is below 10 000 - 2^-11, the midpoint between
/// 10 000 and the single-precision number just under it, which rounds up to 10 000.
pub open spec fn is_unit_in_range(b: u64) -> bool {
    b & 0x7fff_ffff_ffff_ffffu64 < 0x40c3_87ff_f000_0000u64
}

/// The double stored after position `i`, past an optional `doub` or `UntF` (with its
/// four-byte unit) tag; none when the bytes run out or the number is not finite.
pub open spec fn f64_after(s: Seq<u8>, i: int) -> Option<u64> {
    let j = if matches_at(s, i, ascii("doub"@)) {
        i + 4
    } else if matches_at(s, i, ascii("UntF"@)) {
        i + 8
    } else {
        i
    };
    if j + 8 > s.len() {
        None
    } else if is_finite_bits(be_u64(s, j) as u64) {
        Some(be_u64(s, j) as u64)
    } else {
        None
    }
}

/// The bits of the double stored after position `i` (see `f64_after`).
pub fn read_f64_after(bytes: &[u8], i: usize) -> (r: Option<u64>)
    ensures
        r == f64_after(bytes@, i as int),
{
    let doub = ascii_bytes("doub");
    let untf = ascii_bytes("UntF");
    proof {
        reveal_strlit("doub");
        reveal_strlit("UntF");
    }
    let n = bytes.len();
    let mut j = i;
    if bytes_match_at(bytes, i, &doub) {
        j = i + 4;
    } else if bytes_match_at(bytes, i, &untf) {
        if n - i < 8 {
            return None;
        }
        j = i + 8;
    }
    if j > bytes.len() || bytes.len() - j < 8 {
        return None;
    }
    let v = read_be_u64(bytes, j);
    if (v >> 52u64) & 0x7ffu64 != 0x7ffu64 {
        Some(v)
    } else {
        None
    }
}


/// Where the search for a key after position `from` stops: 80 bytes on, or earlier
/// where fewer than the key and twelve bytes are left.
pub open spec fn key_window_end(len: int, from: int, klen: int) -> int {
    let lim = if len >= klen + 12 {
        len - (klen + 12)
    } else {
        0
    };
    if from + 80 < lim {
        from + 80
    } else {
        lim
    }
}

/// The double after the first `key` at or after `i`, before `end`.
pub open spec fn next_key_from(s: Seq<u8>, i: int, end: int, key: Seq<u8>) -> Option<u64>
    decreases end - i,
{
    if i >= end {
        None
    } else if matches_at(s, i, key) {
        f64_after(s, i + key.len())
    } else {
        next_key_from(s, i + 1, end, key)
    }
}

/// The double after the first `key` found shortly after `from` (see `key_window_end`).
pub open spec fn f64_after_key(s: Seq<u8>, from: int, key: Seq<u8>) -> Option<u64> {
    next_key_from(s, from, key_window_end(s.len() as int, from, key.len() as int), key)
}

/// The bits of the double after the first `key` found shortly after `from`.
pub fn find_next_f64_key(bytes: &[u8], from: usize, key: &[u8]) -> (r: Option<u64>)
    requires
        key@.len() + 12 <= usize::MAX,
    ensures
        r == f64_after_key(bytes@, from as int, key@),
{
    let n = bytes.len();
    let lim = if n >= key.len() + 12 {
        n - (key.len() + 12)
    } else {
        0
    };
    let end = if from <= usize::MAX - 80 && from + 80 < lim {
        from + 80
    } else {
        lim
    };
    let ghost e = key_window_end(bytes@.len() as int, from as int, key@.len() as int);
    assert(end == e);
    let mut i = from;
    while i < end
        invariant
            n == bytes@.len(),
            end == e,
            end <= n,
            from <= i || end <= i,
            next_key_from(bytes@, i as int, e, key@) == f64_after_key(bytes@, from as int, key@),
        decreases end - i,
    {
        if bytes_match_at(bytes, i, key) {
            return read_f64_after(bytes, i + key.len());
        }
        i = i + 1;
    }
    None
}

/// The value of a unit-valued key found at `i`: the key, then a `UntF` tag with its
/// four-byte unit or a `doub` tag, then a double whose magnitude is in range.
pub open spec fn unit_at(s: Seq<u8>, key: Seq<u8>, i: int) -> Option<u64> {
    let p = i + key.len();
    let off: int = if matches_at(s, p, ascii("UntF"@)) {
        8
    } else if matches_at(s, p, ascii("doub"@)) {
        4
    } else {
        0
    };
    if matches_at(s, i, key) && off > 0 && p + off + 8 <= s.len() && is_unit_in_range(
        be_u64(s, p + off) as u64,
    ) {
        Some(be_u64(s, p + off) as u64)
    } else {
        None
    }
}

/// The first unit-valued `key` at or after `i` whose value is in range.
pub open spec fn unit_from(s: Seq<u8>, key: Seq<u8>, i: int) -> Option<u64>
    decreases s.len() - i,
{
    if i < 0 || i + key.len() + 12 >= s.len() {
        None
    } else if unit_at(s, key, i) is Some {
        unit_at(s, key, i)
    } else {
        unit_from(s, key, i + 1)
    }
}

/// The bits of the first unit-valued `key` whose value is in range (the caller takes
/// its magnitude as a size or an angle).
pub fn find_unit(bytes: &[u8], key: &[u8]) -> (r: Option<u64>)
    ensures
        r == unit_from(bytes@, key@, 0),
{
    let n = bytes.len();
    let k = key.len();
    let untf = ascii_bytes("UntF");
    let doub = ascii_bytes("doub");
    proof {
        reveal_strlit("doub");
        reveal_strlit("UntF");
    }
    let mut i: usize = 0;
    while i < n && n - i > k && n - i - k > 12
        invariant
            n == bytes@.len(),
            k == key@.len(),
            untf@ == ascii("UntF"@),
            doub@ == ascii("doub"@),
            unit_from(bytes@, key@, i as int) == unit_from(bytes@, key@, 0),
        decreases n - i,
    {
        if bytes_match_at(bytes, i, key) {
            let p = i + k;
            let off: usize = if bytes_match_at(bytes, p, &untf) {
                8
            } else if bytes_match_at(bytes, p, &doub) {
                4
            } else {
                0
            };
            if off > 0 && n - p - off >= 8 {
                let v = read_be_u64(bytes, p + off);
                if v & 0x7fff_ffff_ffff_ffffu64 < 0x40c3_87ff_f000_0000u64 {
                    return Some(v);
                }
            }
        }
        i = i + 1;
    }
    None
}

/// The bits of a red, green and blue triple.
pub type RgbBits = (u64, u64, u64);

/// The colour whose red key (`Rd  ` or `Rd` and two zero bytes) is at `i`, when its
/// red, green and blue doubles are all there and finite.
pub open spec fn rgb_at(s: Seq<u8>, i: int) -> Option<RgbBits> {
    if matches_at(s, i, ascii("Rd  "@)) || matches_at(s, i, seq![0x52u8, 0x64u8, 0u8, 0u8]) {
        match (f64_after(s, i + 4), f64_after_key(s, i, ascii("Grn "@)), f64_after_key(s, i, ascii("Bl  "@))) {
            (Some(r), Some(g), Some(b)) => Some((r, g, b)),
            _ => None,
        }
    } else {
        None
    }
}

/// The colours found at or after `i`, after those in `acc`; the scan stops once
/// there are more than twelve.
pub open spec fn rgbs_from(s: Seq<u8>, i: int, acc: Seq<RgbBits>) -> Seq<RgbBits>
    decreases s.len() - i,
{
    if i < 0 || i + 4 >= s.len() {
        acc
    } else {
        let next = match rgb_at(s, i) {
            Some(c) => acc.push(c),
            None => acc,
        };
        if next.len() > 12 {
            next
        } else {
            rgbs_from(s, i + 1, next)
        }
    }
}

/// The colours of a style, in the order their red keys come (at most thirteen).
pub fn find_rgbs(bytes: &[u8]) -> (r: Vec<RgbBits>)
    ensures
        r@ == rgbs_from(bytes@, 0, Seq::empty()),
{
    let n = bytes.len();
    let rd = ascii_bytes("Rd  ");
    let rd0: [u8; 4] = [0x52, 0x64, 0, 0];
    let grn = ascii_bytes("Grn ");
    let bl = ascii_bytes("Bl  ");
    proof {
        reveal_strlit("Rd  ");
        reveal_strlit("Grn ");
        reveal_strlit("Bl  ");
    }
    let mut out: Vec<RgbBits> = Vec::new();
    let mut i: usize = 0;
    while i < n && n - i > 4
        invariant
            n == bytes@.len(),
            rd@ == ascii("Rd  "@),
            rd0@ == seq![0x52u8, 0x64u8, 0u8, 0u8],
            grn@ == ascii("Grn "@),
            bl@ == ascii("Bl  "@),
            grn@.len() == 4,
            bl@.len() == 4,
            out@.len() <= 12,
            rgbs_from(bytes@, i as int, out@) == rgbs_from(bytes@, 0, Seq::empty()),
        decreases n - i,
    {
        if bytes_match_at(bytes, i, &rd) || bytes_match_at(bytes, i, &rd0) {
            let r = read_f64_after(bytes, i + 4);
            let g = find_next_f64_key(bytes, i, &grn);
            let b = find_next_f64_key(bytes, i, &bl);
            match (r, g, b) {
                (Some(r), Some(g), Some(b)) => {
                    out.push((r, g, b));
                },
                _ => {},
            }
        }
        i = i + 1;
        if out.len() > 12 {
            return out;
        }
    }
    out
}


/// What a layer style says, as far as the importer reads it: the colours, which
/// effects are switched on, and the raw bits of the sizes it gives them.
#[derive(Clone, Debug)]
pub struct StyleKeys {
    /// The colours in the order their red keys come.
    pub colors: Vec<RgbBits>,
    pub drop_shadow: bool,
    /// The drop shadow's distance (`Dstn`), read only when there is a drop shadow.
    pub shadow_distance: Option<u64>,
    /// The drop shadow's size (`blur`), read only when there is a drop shadow.
    pub shadow_blur: Option<u64>,
    pub outer_glow: bool,
    /// The outer glow's size (`blur`), read only when there is an outer glow.
    pub glow_blur: Option<u64>,
    pub inner_shadow: bool,
    pub inner_glow: bool,
    pub stroke: bool,
    /// The stroke's size (`Sz  `, else `Sz`), read only when there is a stroke.
    pub stroke_size: Option<u64>,
    /// Where the stroke lies, when there is a stroke and the style says.
    pub stroke_position: Option<StrokePosition>,
    pub color_overlay: bool,
    pub gradient_overlay: bool,
    /// The gradient's angle (`Angl`), read only for a gradient of two colours or more.
    pub gradient_angle: Option<u64>,
    pub bevel: bool,
}

/// The ASCII key `k` occurs in `s`.
pub open spec fn has_key(s: Seq<u8>, k: Seq<char>) -> bool {
    contains_bytes(s, ascii(k))
}

/// The stroke position a style names: outside, inside or centred, in that order of precedence.
pub open spec fn stroke_position_of(s: Seq<u8>) -> Option<StrokePosition> {
    if has_key(s, "OutF"@) {
        Some(StrokePosition::Outer)
    } else if has_key(s, "InsF"@) {
        Some(StrokePosition::Inner)
    } else if has_key(s, "CtrF"@) {
        Some(StrokePosition::Center)
    } else {
        None
    }
}

/// `k` is what the style in `s` says.
pub open spec fn reads_style(k: StyleKeys, s: Seq<u8>) -> bool {
    &&& k.colors@ == rgbs_from(s, 0, Seq::empty())
    &&& k.drop_shadow == (has_key(s, "DrSh"@) || has_key(s, "dropShadow"@))
    &&& k.shadow_distance == if k.drop_shadow {
        unit_from(s, ascii("Dstn"@), 0)
    } else {
        None
    }
    &&& k.shadow_blur == if k.drop_shadow {
        unit_from(s, ascii("blur"@), 0)
    } else {
        None
    }
    &&& k.outer_glow == (has_key(s, "OrGl"@) || has_key(s, "outerGlow"@))
    &&& k.glow_blur == if k.outer_glow {
        unit_from(s, ascii("blur"@), 0)
    } else {
        None
    }
    &&& k.inner_shadow == has_key(s, "IrSh"@)
    &&& k.inner_glow == has_key(s, "IrGl"@)
    &&& k.stroke == (has_key(s, "FrFX"@) || has_key(s, "frameFX"@))
    &&& k.stroke_size == if k.stroke {
        if unit_from(s, ascii("Sz  "@), 0) is Some {
            unit_from(s, ascii("Sz  "@), 0)
        } else {
            unit_from(s, ascii("Sz"@), 0)
        }
    } else {
        None
    }
    &&& k.stroke_position == if k.stroke {
        stroke_position_of(s)
    } else {
        None
    }
    &&& k.color_overlay == has_key(s, "SoFi"@)
    &&& k.gradient_overlay == (has_key(s, "GrFl"@) || has_key(s, "GdFl"@))
    &&& k.gradient_angle == if k.gradient_overlay && k.colors@.len() >= 2 {
        unit_from(s, ascii("Angl"@), 0)
    } else {
        None
    }
    &&& k.bevel == has_key(s, "ebbl"@)
}

/// Whether the ASCII key `k` occurs in `bytes`.
fn has_key_exec(bytes: &[u8], k: &str) -> (r: bool)
    requires
        k@.len() > 0,
    ensures
        r == has_key(bytes@, k@),
{
    let kb = ascii_bytes(k);
    bytes_contains(bytes, &kb)
}

/// The bits of the first unit-valued ASCII key `k` in range.
fn unit_of(bytes: &[u8], k: &str) -> (r: Option<u64>)
    ensures
        r == unit_from(bytes@, ascii(k@), 0),
{
    let kb = ascii_bytes(k);
    find_unit(bytes, &kb)
}

/// Reads the keys of a layer style (`lfx2`-like descriptor bytes, from an ASL file
/// or a PSD).
pub fn scan_style_keys(bytes: &[u8]) -> (k: StyleKeys)
    ensures
        reads_style(k, bytes@),
{
    proof {
        reveal_strlit("DrSh");
        reveal_strlit("dropShadow");
        reveal_strlit("OrGl");
        reveal_strlit("outerGlow");
        reveal_strlit("IrSh");
        reveal_strlit("IrGl");
        reveal_strlit("FrFX");
        reveal_strlit("frameFX");
        reveal_strlit("OutF");
        reveal_strlit("InsF");
        reveal_strlit("CtrF");
        reveal_strlit("SoFi");
        reveal_strlit("GrFl");
        reveal_strlit("GdFl");
        reveal_strlit("ebbl");
    }
    let colors = find_rgbs(bytes);
    let drop_shadow = has_key_exec(bytes, "DrSh") || has_key_exec(bytes, "dropShadow");
    let (shadow_distance, shadow_blur) = if drop_shadow {
        (unit_of(bytes, "Dstn"), unit_of(bytes, "blur"))
    } else {
        (None, None)
    };
    let outer_glow = has_key_exec(bytes, "OrGl") || has_key_exec(bytes, "outerGlow");
    let glow_blur = if outer_glow {
        unit_of(bytes, "blur")
    } else {
        None
    };
    let inner_shadow = has_key_exec(bytes, "IrSh");
    let inner_glow = has_key_exec(bytes, "IrGl");
    let stroke = has_key_exec(bytes, "FrFX") || has_key_exec(bytes, "frameFX");
    let (stroke_size, stroke_position) = if stroke {
        let wide = unit_of(bytes, "Sz  ");
        let size = if wide.is_some() {
            wide
        } else {
            unit_of(bytes, "Sz")
        };
        let position = if has_key_exec(bytes, "OutF") {
            Some(StrokePosition::Outer)
        } else if has_key_exec(bytes, "InsF") {
            Some(StrokePosition::Inner)
        } else if has_key_exec(bytes, "CtrF") {
            Some(StrokePosition::Center)
        } else {
            None
        };
        (size, position)
    } else {
        (None, None)
    };
    let color_overlay = has_key_exec(bytes, "SoFi");
    let gradient_overlay = has_key_exec(bytes, "GrFl") || has_key_exec(bytes, "GdFl");
    let gradient_angle = if gradient_overlay && colors.len() >= 2 {
        unit_of(bytes, "Angl")
    } else {
        None
    };
    let bevel = has_key_exec(bytes, "ebbl");
    StyleKeys {
        colors,
        drop_shadow,
        shadow_distance,
        shadow_blur,
        outer_glow,
        glow_blur,
        inner_shadow,
        inner_glow,
        stroke,
        stroke_size,
        stroke_position,
        color_overlay,
        gradient_overlay,
        gradient_angle,
        bevel,
    }
}

/// The big-endian 32-bit integer whose bytes are `s[i..i + 4]`.
pub open spec fn be_u32(s: Seq<u8>, i: int) -> int {
    s[i] * 0x0100_0000 + s[i + 1] * 0x0001_0000 + s[i + 2] * 0x0000_0100 + s[i + 3]
}

/// The big-endian 32-bit integer whose bytes are `bytes[i..i + 4]`.
fn read_be_u32(bytes: &[u8], i: usize) -> (r: u64)
    requires
        i + 4 <= bytes@.len(),
    ensures
        r == be_u32(bytes@, i as int),
{
    (bytes[i] as u64) * 0x0100_0000 + (bytes[i + 1] as u64) * 0x0001_0000 + (bytes[i + 2] as u64)
        * 0x0000_0100 + (bytes[i + 3] as u64)
}

/// Where the first style of an `.asl` file lies, as a range of byte positions. The file
/// starts with a two-byte version, `8BSL` and a two-byte pattern version; then come the
/// patterns, after their four-byte length, the four-byte number of styles, and each style
/// after its four-byte length. The first style runs for its length, or to the end of a file
/// cut short; a file that holds no style gives an empty range at its end; bytes without the
/// `8BSL` signature are taken as one style descriptor and read whole.
pub open spec fn first_style_range(s: Seq<u8>) -> (int, int) {
    if s.len() >= 12 && matches_at(s, 2, ascii("8BSL"@)) {
        let p = 12 + be_u32(s, 8);
        if p + 8 <= s.len() && be_u32(s, p) >= 1 {
            let start = p + 8;
            let end = start + be_u32(s, p + 4);
            (start, if end <= s.len() { end } else { s.len() as int })
        } else {
            (s.len() as int, s.len() as int)
        }
    } else {
        (0, s.len() as int)
    }
}

/// The bytes of the first style of an `.asl` file (see `first_style_range`).
pub open spec fn first_style(s: Seq<u8>) -> Seq<u8> {
    s.subrange(first_style_range(s).0, first_style_range(s).1)
}

/// Where the first style of an `.asl` file lies.
fn find_first_style(bytes: &[u8]) -> (r: (usize, usize))
    ensures
        r.0 == first_style_range(bytes@).0,
        r.1 == first_style_range(bytes@).1,
        r.0 <= r.1 <= bytes@.len(),
{
    let n = bytes.len();
    let sig = ascii_bytes("8BSL");
    proof {
        reveal_strlit("8BSL");
    }
    if n < 12 || !bytes_match_at(bytes, 2, &sig) {
        return (0, n);
    }
    let p: u64 = 12 + read_be_u32(bytes, 8);
    if p + 8 > n as u64 {
        return (n, n);
    }
    let count = read_be_u32(bytes, p as usize);
    if count < 1 {
        return (n, n);
    }
    let start: u64 = p + 8;
    let end: u64 = start + read_be_u32(bytes, p as usize + 4);
    if end <= n as u64 {
        (start as usize, end as usize)
    } else {
        (start as usize, n)
    }
}

/// Reads the first style of an `.asl` style sheet (see `first_style_range`). Shorter than
/// eight bytes, it is refused with "ASL 文件太短".
pub fn parse_asl(bytes: &[u8]) -> (r: Result<StyleKeys, ImportError>)
    ensures
        bytes@.len() < 8 <==> r is Err,
        r matches Err(ImportError::Parse(m)) ==> m@ == "ASL 文件太短"@,
        r matches Err(e) ==> e is Parse,
        r matches Ok(k) ==> reads_style(k, first_style(bytes@)),
{
    if bytes.len() < 8 {
        return Err(ImportError::Parse("ASL 文件太短".to_owned()));
    }
    let (start, end) = find_first_style(bytes);
    let style = vstd::slice::slice_subrange(bytes, start, end);
    Ok(scan_style_keys(style))
}

/// `8BPS`-signed and long enough for a PSD header.
pub open spec fn is_psd(s: Seq<u8>) -> bool {
    s.len() >= 26 && matches_at(s, 0, ascii("8BPS"@))
}

/// The little-endian UTF-16 code unit at `k`.
pub open spec fn utf16_at(s: Seq<u8>, k: int) -> int {
    s[k] + 256 * s[k + 1]
}

/// A code unit that can be part of a layer name: printable ASCII or a CJK ideograph.
pub open spec fn is_name_unit(u: int) -> bool {
    (0x20 <= u <= 0x7e) || (0x4e00 <= u <= 0x9fff)
}

/// Every character is an ASCII digit.
pub open spec fn all_ascii_digits(run: Seq<char>) -> bool {
    forall|i: int| 0 <= i < run.len() ==> 48 <= #[trigger] (run[i] as u32) <= 57
}

/// A run of name characters that is taken as a layer name: two or more characters,
/// not all digits.
pub open spec fn keeps_run(run: Seq<char>) -> bool {
    run.len() >= 2 && !all_ascii_digits(run)
}

/// The names found from byte `k` on, after those in `acc`, with `run` the name
/// characters read just before `k`. A run is taken when a byte that does not start
/// a name unit ends it; one still open when the bytes run out is dropped.
pub open spec fn name_runs(s: Seq<u8>, k: int, run: Seq<char>, acc: Seq<Seq<char>>) -> Seq<Seq<char>>
    decreases s.len() - k,
{
    if k < 0 || k + 1 >= s.len() {
        acc
    } else if is_name_unit(utf16_at(s, k)) {
        name_runs(s, k + 2, run.push(utf16_at(s, k) as char), acc)
    } else {
        name_runs(
            s,
            k + 1,
            Seq::empty(),
            if keeps_run(run) {
                acc.push(run)
            } else {
                acc
            },
        )
    }
}

/// The layer names listed for a PSD: the first 64 names found, or `背景` alone
/// when none is.
pub open spec fn layer_names(s: Seq<u8>) -> Seq<Seq<char>> {
    let found = name_runs(s, 0, Seq::empty(), Seq::empty());
    let kept = if found.len() > 64 {
        found.take(64)
    } else {
        found
    };
    if kept.len() == 0 {
        seq!["背景"@]
    } else {
        kept
    }
}

/// `ls` are layers named `names`, all of kind `layer`.
pub open spec fn are_layers(ls: Seq<PsdLayer>, names: Seq<Seq<char>>) -> bool {
    &&& ls.len() == names.len()
    &&& forall|i: int| 0 <= i < ls.len() ==> (#[trigger] ls[i]).name@ == names[i] && ls[i].kind@ == "layer"@
}

/// Whether every character of `run` is an ASCII digit.
fn is_all_digits(run: &Vec<char>) -> (r: bool)
    ensures
        r == all_ascii_digits(run@),
{
    let mut i: usize = 0;
    while i < run.len()
        invariant
            i <= run@.len(),
            forall|j: int| 0 <= j < i ==> 48 <= #[trigger] (run@[j] as u32) <= 57,
        decreases run.len() - i,
    {
        let c = run[i] as u32;
        if c < 48 || c > 57 {
            return false;
        }
        i = i + 1;
    }
    true
}

/// Lists the layers of a PSD so that the user can pick a text layer: the runs of
/// printable UTF-16LE text that look like names. Anything that does not start with
/// the `8BPS` signature, or is shorter than a header, is refused with "不是 PSD 文件".
pub fn list_psd_layers(bytes: &[u8]) -> (r: Result<Vec<PsdLayer>, ImportError>)
    ensures
        !is_psd(bytes@) <==> r is Err,
        r matches Err(ImportError::Parse(m)) ==> m@ == "不是 PSD 文件"@,
        r matches Err(e) ==> e is Parse,
        r matches Ok(ls) ==> are_layers(ls@, layer_names(bytes@)),
{
    let n = bytes.len();
    let sig = ascii_bytes("8BPS");
    if n < 26 || !bytes_match_at(bytes, 0, &sig) {
        return Err(ImportError::Parse("不是 PSD 文件".to_owned()));
    }
    let mut layers: Vec<PsdLayer> = Vec::new();
    let ghost mut acc: Seq<Seq<char>> = Seq::empty();
    let mut run: Vec<char> = Vec::new();
    let mut k: usize = 0;
    while k < n && n - k > 1
        invariant
            n == bytes@.len(),
            are_layers(layers@, acc),
            name_runs(bytes@, k as int, run@, acc) == name_runs(bytes@, 0, Seq::empty(), Seq::empty()),
        decreases n - k,
    {
        let u: u32 = bytes[k] as u32 + 256 * bytes[k + 1] as u32;
        assert(u == utf16_at(bytes@, k as int));
        if (0x20 <= u && u <= 0x7e) || (0x4e00 <= u && u <= 0x9fff) {
            let c = char_from_u32(u);
            match c {
                Some(ch) => {
                    run.push(ch);
                },
                None => {},
            }
            k = k + 2;
        } else {
            let keep = run.len() >= 2 && !is_all_digits(&run);
            if keep {
                let name = chars_to_string(&run);
                let kind = "layer".to_owned();
                layers.push(PsdLayer { name, kind });
                proof {
                    acc = acc.push(run@);
                }
            }
            run = Vec::new();
            k = k + 1;
        }
    }
    assert(acc == name_runs(bytes@, 0, Seq::empty(), Seq::empty()));
    let ghost kept = if acc.len() > 64 {
        acc.take(64)
    } else {
        acc
    };
    let ghost before = layers@;
    layers.truncate(64);
    assert(are_layers(layers@, kept)) by {
        if acc.len() > 64 {
            assert(layers@ == before.subrange(0, 64));
        }
    }
    if layers.len() == 0 {
        let name = "背景".to_owned();
        let kind = "layer".to_owned();
        layers.push(PsdLayer { name, kind });
    }
    Ok(layers)
}


/// Every name gathered from position `k` on is kept by `keeps_run`, when those in
/// `acc` are.
proof fn lemma_name_runs_kept(s: Seq<u8>, k: int, run: Seq<char>, acc: Seq<Seq<char>>)
    requires
        forall|i: int| 0 <= i < acc.len() ==> keeps_run(#[trigger] acc[i]),
    ensures
        forall|i: int|
            0 <= i < name_runs(s, k, run, acc).len() ==> keeps_run(#[trigger] name_runs(s, k, run, acc)[i]),
    decreases s.len() - k,
{
    if k < 0 || k + 1 >= s.len() {
        assert(name_runs(s, k, run, acc) == acc);
    } else if is_name_unit(utf16_at(s, k)) {
        lemma_name_runs_kept(s, k + 2, run.push(utf16_at(s, k) as char), acc);
        assert(name_runs(s, k, run, acc) == name_runs(s, k + 2, run.push(utf16_at(s, k) as char), acc));
    } else {
        let next = if keeps_run(run) {
            acc.push(run)
        } else {
            acc
        };
        assert forall|i: int| 0 <= i < next.len() implies keeps_run(#[trigger] next[i]) by {
            if i < acc.len() {
                assert(next[i] == acc[i]);
            }
        }
        lemma_name_runs_kept(s, k + 1, Seq::empty(), next);
        assert(name_runs(s, k, run, acc) == name_runs(s, k + 1, Seq::empty(), next));
    }
}

/// Law: a PSD lists between one and 64 layers, each named by two or more characters
/// that are not all digits, or `背景` alone.
pub proof fn lemma_layer_names(s: Seq<u8>)
    ensures
        1 <= layer_names(s).len() <= 64,
        layer_names(s) == seq!["背景"@] || forall|i: int|
            0 <= i < layer_names(s).len() ==> keeps_run(#[trigger] layer_names(s)[i]),
{
    let found = name_runs(s, 0, Seq::empty(), Seq::empty());
    lemma_name_runs_kept(s, 0, Seq::empty(), Seq::empty());
    let kept = if found.len() > 64 {
        found.take(64)
    } else {
        found
    };
    assert forall|i: int| 0 <= i < kept.len() implies keeps_run(#[trigger] kept[i]) by {
        assert(kept[i] == found[i]);
    }
}


/// The colours a style's effects take from the colours it holds.
#[derive(Clone, Copy, Debug)]
pub struct StyleColours {
    /// The fill: the first colour.
    pub fill: Option<Rgba8>,
    /// The drop shadow: the second colour, at alpha 160.
    pub shadow: Option<Rgba8>,
    /// The outer glow: the third colour, else the first, at alpha 180.
    pub glow: Option<Rgba8>,
    /// The stroke: the last colour.
    pub stroke: Option<Rgba8>,
    /// The colour overlay: the first colour.
    pub overlay: Option<Rgba8>,
}

/// Colour `i`, if there is one.
pub open spec fn colour_at(cs: Seq<Rgba8>, i: int) -> Option<Rgba8> {
    if 0 <= i < cs.len() {
        Some(cs[i])
    } else {
        None
    }
}

/// A colour, if there is one, with its alpha set to `a`.
pub open spec fn with_alpha_of(c: Option<Rgba8>, a: u8) -> Option<Rgba8> {
    match c {
        Some(c) => Some(Rgba8 { a, ..c }),
        None => None,
    }
}

/// The colour of each effect a style switches on, from the colours it holds (`cs`, in the
/// order found): effects that are off take none.
pub fn style_colours(keys: &StyleKeys, cs: &Vec<Rgba8>) -> (r: StyleColours)
    ensures
        r.fill == colour_at(cs@, 0),
        r.shadow == if keys.drop_shadow {
            with_alpha_of(colour_at(cs@, 1), 160)
        } else {
            None
        },
        r.glow == if keys.outer_glow {
            with_alpha_of(if cs@.len() > 2 { colour_at(cs@, 2) } else { colour_at(cs@, 0) }, 180)
        } else {
            None
        },
        r.stroke == if keys.stroke {
            colour_at(cs@, cs@.len() - 1)
        } else {
            None
        },
        r.overlay == if keys.color_overlay {
            colour_at(cs@, 0)
        } else {
            None
        },
{
    let n = cs.len();
    let first = if n > 0 { Some(cs[0]) } else { None };
    let shadow = if keys.drop_shadow && n > 1 { Some(cs[1].with_alpha(160)) } else { None };
    let glow = if !keys.outer_glow {
        None
    } else if n > 2 {
        Some(cs[2].with_alpha(180))
    } else if n > 0 {
        Some(cs[0].with_alpha(180))
    } else {
        None
    };
    let stroke = if keys.stroke && n > 0 { Some(cs[n - 1]) } else { None };
    let overlay = if keys.color_overlay { first } else { None };
    StyleColours { fill: first, shadow, glow, stroke, overlay }
}

/// Law: each effect flag of a style is switched on exactly when the style's bytes hold
/// that effect's own ASCII key (`IrGl` for the inner glow, `IrSh` for the inner shadow,
/// and so on), whatever other keys occur beside it.
pub proof fn lemma_style_flags(k: StyleKeys, s: Seq<u8>)
    requires
        reads_style(k, s),
    ensures
        k.drop_shadow == (contains_bytes(s, seq![0x44u8, 0x72u8, 0x53u8, 0x68u8])
            || contains_bytes(s, seq![0x64u8, 0x72u8, 0x6fu8, 0x70u8, 0x53u8, 0x68u8, 0x61u8, 0x64u8, 0x6fu8, 0x77u8])),
        k.outer_glow == (contains_bytes(s, seq![0x4fu8, 0x72u8, 0x47u8, 0x6cu8])
            || contains_bytes(s, seq![0x6fu8, 0x75u8, 0x74u8, 0x65u8, 0x72u8, 0x47u8, 0x6cu8, 0x6fu8, 0x77u8])),
        k.inner_shadow == contains_bytes(s, seq![0x49u8, 0x72u8, 0x53u8, 0x68u8]),
        k.inner_glow == contains_bytes(s, seq![0x49u8, 0x72u8, 0x47u8, 0x6cu8]),
        k.stroke == (contains_bytes(s, seq![0x46u8, 0x72u8, 0x46u8, 0x58u8])
            || contains_bytes(s, seq![0x66u8, 0x72u8, 0x61u8, 0x6du8, 0x65u8, 0x46u8, 0x58u8])),
        k.color_overlay == contains_bytes(s, seq![0x53u8, 0x6fu8, 0x46u8, 0x69u8]),
        k.gradient_overlay == (contains_bytes(s, seq![0x47u8, 0x72u8, 0x46u8, 0x6cu8])
            || contains_bytes(s, seq![0x47u8, 0x64u8, 0x46u8, 0x6cu8])),
        k.bevel == contains_bytes(s, seq![0x65u8, 0x62u8, 0x62u8, 0x6cu8]),
{
    reveal_strlit("DrSh");
    assert(ascii("DrSh"@) =~= seq![0x44u8, 0x72u8, 0x53u8, 0x68u8]);
    reveal_strlit("dropShadow");
    assert(ascii("dropShadow"@)
        =~= seq![0x64u8, 0x72u8, 0x6fu8, 0x70u8, 0x53u8, 0x68u8, 0x61u8, 0x64u8, 0x6fu8, 0x77u8]);
    reveal_strlit("OrGl");
    assert(ascii("OrGl"@) =~= seq![0x4fu8, 0x72u8, 0x47u8, 0x6cu8]);
    reveal_strlit("outerGlow");
    assert(ascii("outerGlow"@)
        =~= seq![0x6fu8, 0x75u8, 0x74u8, 0x65u8, 0x72u8, 0x47u8, 0x6cu8, 0x6fu8, 0x77u8]);
    reveal_strlit("IrSh");
    assert(ascii("IrSh"@) =~= seq![0x49u8, 0x72u8, 0x53u8, 0x68u8]);
    reveal_strlit("IrGl");
    assert(ascii("IrGl"@) =~= seq![0x49u8, 0x72u8, 0x47u8, 0x6cu8]);
    reveal_strlit("FrFX");
    assert(ascii("FrFX"@) =~= seq![0x46u8, 0x72u8, 0x46u8, 0x58u8]);
    reveal_strlit("frameFX");
    assert(ascii("frameFX"@) =~= seq![0x66u8, 0x72u8, 0x61u8, 0x6du8, 0x65u8, 0x46u8, 0x58u8]);
    reveal_strlit("SoFi");
    assert(ascii("SoFi"@) =~= seq![0x53u8, 0x6fu8, 0x46u8, 0x69u8]);
    reveal_strlit("GrFl");
    assert(ascii("GrFl"@) =~= seq![0x47u8, 0x72u8, 0x46u8, 0x6cu8]);
    reveal_strlit("GdFl");
    assert(ascii("GdFl"@) =~= seq![0x47u8, 0x64u8, 0x46u8, 0x6cu8]);
    reveal_strlit("ebbl");
    assert(ascii("ebbl"@) =~= seq![0x65u8, 0x62u8, 0x62u8, 0x6cu8]);
}

/// The ten ASCII digits.
pub open spec fn ascii_digit_chars() -> Seq<char> {
    seq!['0', '1', '2', '3', '4', '5', '6', '7', '8', '9']
}

/// `run` holds a character that is not an ASCII digit.
pub open spec fn has_non_digit(run: Seq<char>) -> bool {
    exists|i: int| 0 <= i < run.len() && !ascii_digit_chars().contains(#[trigger] run[i])
}

/// Law: a run of name characters is taken as a layer name exactly when it has two
/// characters or more and one of them, wherever it stands, is not an ASCII digit.
pub proof fn lemma_keeps_run(run: Seq<char>)
    ensures
        keeps_run(run) <==> (run.len() >= 2 && has_non_digit(run)),
{
    let d = ascii_digit_chars();
    assert forall|c: char| d.contains(c) <==> 48 <= (c as u32) <= 57 by {
        if 48 <= (c as u32) <= 57 {
            if c as u32 == 48 {
                vstd::utf8::char_u32_cast(c, c as u32);
                vstd::utf8::char_u32_cast(d[0], d[0] as u32);
                assert(d[0] == c);
            } else if c as u32 == 49 {
                vstd::utf8::char_u32_cast(c, c as u32);
                vstd::utf8::char_u32_cast(d[1], d[1] as u32);
                assert(d[1] == c);
            } else if c as u32 == 50 {
                vstd::utf8::char_u32_cast(c, c as u32);
                vstd::utf8::char_u32_cast(d[2], d[2] as u32);
                assert(d[2] == c);
            } else if c as u32 == 51 {
                vstd::utf8::char_u32_cast(c, c as u32);
                vstd::utf8::char_u32_cast(d[3], d[3] as u32);
                assert(d[3] == c);
            } else if c as u32 == 52 {
                vstd::utf8::char_u32_cast(c, c as u32);
                vstd::utf8::char_u32_cast(d[4], d[4] as u32);
                assert(d[4] == c);
            } else if c as u32 == 53 {
                vstd::utf8::char_u32_cast(c, c as u32);
                vstd::utf8::char_u32_cast(d[5], d[5] as u32);
                assert(d[5] == c);
            } else if c as u32 == 54 {
                vstd::utf8::char_u32_cast(c, c as u32);
                vstd::utf8::char_u32_cast(d[6], d[6] as u32);
                assert(d[6] == c);
            } else if c as u32 == 55 {
                vstd::utf8::char_u32_cast(c, c as u32);
                vstd::utf8::char_u32_cast(d[7], d[7] as u32);
                assert(d[7] == c);
            } else if c as u32 == 56 {
                vstd::utf8::char_u32_cast(c, c as u32);
                vstd::utf8::char_u32_cast(d[8], d[8] as u32);
                assert(d[8] == c);
            } else if c as u32 == 57 {
                vstd::utf8::char_u32_cast(c, c as u32);
                vstd::utf8::char_u32_cast(d[9], d[9] as u32);
                assert(d[9] == c);
            }
        }
        if d.contains(c) {
            let j = choose|j: int| 0 <= j < d.len() && d[j] == c;
            assert(0 <= j < 10);
        }
    }
    if has_non_digit(run) {
        let i = choose|i: int| 0 <= i < run.len() && !d.contains(#[trigger] run[i]);
        assert(!(48 <= (run[i] as u32) <= 57));
    }
    if !all_ascii_digits(run) {
        let i = choose|i: int| 0 <= i < run.len() && !(48 <= #[trigger] (run[i] as u32) <= 57);
        assert(!d.contains(run[i]));
    }
}

/// The names gathered from `k` on begin with those already in `acc`.
proof fn lemma_name_runs_extend(s: Seq<u8>, k: int, run: Seq<char>, acc: Seq<Seq<char>>)
    ensures
        name_runs(s, k, run, acc).len() >= acc.len(),
        forall|i: int| 0 <= i < acc.len() ==> #[trigger] name_runs(s, k, run, acc)[i] == acc[i],
    decreases s.len() - k,
{
    if k < 0 || k + 1 >= s.len() {
    } else if is_name_unit(utf16_at(s, k)) {
        lemma_name_runs_extend(s, k + 2, run.push(utf16_at(s, k) as char), acc);
    } else {
        let next = if keeps_run(run) {
            acc.push(run)
        } else {
            acc
        };
        lemma_name_runs_extend(s, k + 1, Seq::empty(), next);
        assert forall|i: int| 0 <= i < acc.len() implies #[trigger] name_runs(s, k, run, acc)[i] == acc[i] by {
            assert(next[i] == acc[i]);
            assert(name_runs(s, k + 1, Seq::empty(), next)[i] == next[i]);
        }
    }
}

/// Law: a run of two or more name characters with a character that is not an ASCII
/// digit, ended by a code unit that is not a name character, is listed as the next
/// layer name after those found before it; a listed name among the first 64 found
/// is a layer of the PSD.
pub proof fn lemma_run_listed(s: Seq<u8>, k: int, run: Seq<char>, acc: Seq<Seq<char>>)
    requires
        0 <= k,
        k + 1 < s.len(),
        !is_name_unit(utf16_at(s, k)),
        run.len() >= 2,
        has_non_digit(run),
    ensures
        name_runs(s, k, run, acc).len() > acc.len(),
        name_runs(s, k, run, acc)[acc.len() as int] == run,
        forall|j: int|
            0 <= j < name_runs(s, 0, Seq::empty(), Seq::empty()).len() && j < 64 ==> #[trigger] layer_names(
                s,
            )[j] == name_runs(s, 0, Seq::empty(), Seq::empty())[j],
{
    lemma_keeps_run(run);
    let next = acc.push(run);
    lemma_name_runs_extend(s, k + 1, Seq::empty(), next);
    assert(name_runs(s, k, run, acc) == name_runs(s, k + 1, Seq::empty(), next));
    assert(name_runs(s, k + 1, Seq::empty(), next)[acc.len() as int] == next[acc.len() as int]);
}

} // verus!
