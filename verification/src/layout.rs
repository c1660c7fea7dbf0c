//! Laying out rasterized glyphs: font choice, tabular digits, symbol
//! alignment, line height, packing and the atlas pages.

use vstd::prelude::*;
use crate::error::Error;
use crate::font::{GeneratedFont, GlyphImage};
use crate::pack::{
    all_fit, apart, gap_of, max_int, pack_glyphs, packing, PackOptions,
};
use crate::raster::{
    blit, buffer_len, height_of, image_from_pixel, image_height, image_width, pixel_at, width_of,
    Image,
};

verus! {

/// `fontdue::Font`, a parsed font face.
#[verifier::external_type_specification]
#[verifier::external_body]
pub struct ExFont(fontdue::Font);

/// The characters a face maps to glyphs, with their (non-zero) glyph indices: the
/// character map a `fontdue::Font` holds and never changes after it is parsed.
pub uninterp spec fn face_glyphs(font: fontdue::Font) -> Map<char, u16>;

/// `fontdue::Font::lookup_glyph_index`: the glyph index the face maps `ch` to, or 0
/// when it maps no glyph to `ch` (the indices it maps are never 0).
#[verifier::external_body]
fn lookup_glyph_index(font: &fontdue::Font, ch: char) -> (r: u16)
    ensures
        r == (if face_glyphs(*font).dom().contains(ch) {
            face_glyphs(*font)[ch]
        } else {
            0u16
        }),
        face_glyphs(*font).dom().contains(ch) ==> r != 0,
{
    font.lookup_glyph_index(ch)
}

/// The faces a glyph can be drawn from.
pub struct Fonts<'a> {
    pub primary: &'a fontdue::Font,
    pub latin: &'a fontdue::Font,
    pub cjk: &'a fontdue::Font,
}

/// Which of the faces a glyph is drawn from.
#[derive(Clone, Copy, Debug, PartialEq, Eq, Structural)]
pub enum FontSlot {
    Primary,
    Latin,
    Cjk,
}

/// The face for a character and whether it is a fallback face, given whether
/// the primary face can draw it (a space always counts), whether it is ASCII,
/// and whether the Latin and CJK fallback faces have it. The primary face is
/// kept whenever it can draw the character.
pub open spec fn choose_font_spec(
    primary_ok: bool,
    ascii: bool,
    latin_has: bool,
    cjk_has: bool,
    ascii_fallback: bool,
) -> (FontSlot, bool) {
    if primary_ok {
        (FontSlot::Primary, false)
    } else if ascii_fallback && ascii && latin_has {
        (FontSlot::Latin, true)
    } else if cjk_has {
        (FontSlot::Cjk, true)
    } else if latin_has {
        (FontSlot::Latin, true)
    } else {
        (FontSlot::Primary, false)
    }
}

/// The face for `ch` when the primary face has it (`p`), the Latin face has it
/// (`l`) and the CJK face has it (`c`).
pub open spec fn choose_for_char(ch: char, p: bool, l: bool, c: bool, ascii_fallback: bool) -> (
    FontSlot,
    bool,
) {
    choose_font_spec(p || ch == ' ', (ch as u32) < 128, l, c, ascii_fallback)
}

/// Chooses the face for a character from what the faces have.
pub fn choose_font(
    primary_ok: bool,
    ascii: bool,
    latin_has: bool,
    cjk_has: bool,
    ascii_fallback: bool,
) -> (r: (FontSlot, bool))
    ensures
        r == choose_font_spec(primary_ok, ascii, latin_has, cjk_has, ascii_fallback),
{
    if primary_ok {
        (FontSlot::Primary, false)
    } else if ascii_fallback && ascii && latin_has {
        (FontSlot::Latin, true)
    } else if cjk_has {
        (FontSlot::Cjk, true)
    } else if latin_has {
        (FontSlot::Latin, true)
    } else {
        (FontSlot::Primary, false)
    }
}

/// Whether a face has a glyph for `ch`.
fn has_glyph(font: &fontdue::Font, ch: char) -> (r: bool)
    ensures
        r == face_glyphs(*font).dom().contains(ch),
{
    lookup_glyph_index(font, ch) != 0
}

/// Whether the face has a glyph for `ch`.
pub open spec fn face_has(font: fontdue::Font, ch: char) -> bool {
    face_glyphs(font).dom().contains(ch)
}

/// Picks the face a character is drawn from: the primary face when it has the
/// glyph (or the character is a space), else a fallback face that has it.
pub fn pick_font(fonts: &Fonts, ch: char, ascii_fallback: bool) -> (r: (FontSlot, bool))
    ensures
        r == choose_for_char(
            ch,
            face_has(*fonts.primary, ch),
            face_has(*fonts.latin, ch),
            face_has(*fonts.cjk, ch),
            ascii_fallback,
        ),
        ch == ' ' ==> r == (FontSlot::Primary, false),
        r.1 <==> r.0 != FontSlot::Primary,
{
    let primary_has = has_glyph(fonts.primary, ch);
    let primary_ok = primary_has || ch == ' ';
    let latin_has = has_glyph(fonts.latin, ch);
    let cjk_has = has_glyph(fonts.cjk, ch);
    let code: u32 = ch as u32;
    let r = choose_font(primary_ok, code < 128, latin_has, cjk_has, ascii_fallback);
    assert(r == choose_for_char(ch, primary_has, latin_has, cjk_has, ascii_fallback));
    r
}

/// What becomes of a glyph once it has been drawn from the face chosen for it.
#[derive(Clone, Copy, Debug, PartialEq, Eq, Structural)]
pub enum RasterStep {
    /// Keep the bitmap drawn.
    Keep,
    /// Draw it again from the Latin fallback face, as a fallback glyph.
    RedrawLatin,
    /// The character is missing: an empty glyph stands in for it.
    Missing,
}

/// The step after drawing a character from the chosen face. A bitmap that looks
/// like a hollow box (a `.notdef`) is drawn again from the Latin face when that face
/// has the character and was not the one used; else, when the chosen face lacks the
/// character, it is missing. A character the chosen face lacks, drawn from the
/// primary face, is missing too. A space is always kept.
pub open spec fn raster_step_spec(
    is_space: bool,
    hollow: bool,
    chosen_is_latin: bool,
    latin_has: bool,
    chosen_has: bool,
    from_fallback: bool,
) -> RasterStep {
    if hollow && !is_space && latin_has && !chosen_is_latin {
        RasterStep::RedrawLatin
    } else if hollow && !is_space && !chosen_has {
        RasterStep::Missing
    } else if !is_space && !chosen_has && !from_fallback {
        RasterStep::Missing
    } else {
        RasterStep::Keep
    }
}

/// The step after drawing `ch` from the face in `slot`, when the Latin face has it
/// (`l`) and the chosen face has it (`c`).
pub open spec fn raster_step_for(ch: char, hollow: bool, slot: FontSlot, l: bool, c: bool, from_fallback: bool) -> RasterStep {
    raster_step_spec(ch == ' ', hollow, slot == FontSlot::Latin, l, c, from_fallback)
}

/// Decides the step after drawing a character, from what the faces have.
pub fn next_raster_step(
    is_space: bool,
    hollow: bool,
    chosen_is_latin: bool,
    latin_has: bool,
    chosen_has: bool,
    from_fallback: bool,
) -> (r: RasterStep)
    ensures
        r == raster_step_spec(is_space, hollow, chosen_is_latin, latin_has, chosen_has, from_fallback),
        is_space ==> r == RasterStep::Keep,
{
    if hollow && !is_space && latin_has && !chosen_is_latin {
        RasterStep::RedrawLatin
    } else if hollow && !is_space && !chosen_has {
        RasterStep::Missing
    } else if !is_space && !chosen_has && !from_fallback {
        RasterStep::Missing
    } else {
        RasterStep::Keep
    }
}

/// The face in a slot.
pub open spec fn slot_face<'a>(fonts: Fonts<'a>, slot: FontSlot) -> fontdue::Font {
    match slot {
        FontSlot::Primary => *fonts.primary,
        FontSlot::Latin => *fonts.latin,
        FontSlot::Cjk => *fonts.cjk,
    }
}

/// The face in a slot.
pub fn face<'a>(fonts: &Fonts<'a>, slot: FontSlot) -> (r: &'a fontdue::Font)
    ensures
        slot == FontSlot::Primary ==> r == fonts.primary,
        slot == FontSlot::Latin ==> r == fonts.latin,
        slot == FontSlot::Cjk ==> r == fonts.cjk,
{
    match slot {
        FontSlot::Primary => fonts.primary,
        FontSlot::Latin => fonts.latin,
        FontSlot::Cjk => fonts.cjk,
    }
}

/// The step after drawing `ch` from the face in `slot` (`hollow`: the bitmap looks
/// like a hollow box), from what the Latin face and the chosen face hold.
pub fn raster_step(fonts: &Fonts, slot: FontSlot, from_fallback: bool, ch: char, hollow: bool) -> (r: RasterStep)
    ensures
        r == raster_step_for(
            ch,
            hollow,
            slot,
            face_has(*fonts.latin, ch),
            face_has(slot_face(*fonts, slot), ch),
            from_fallback,
        ),
        ch == ' ' ==> r == RasterStep::Keep,
{
    let latin_has = has_glyph(fonts.latin, ch);
    let chosen_has = has_glyph(face(fonts, slot), ch);
    let is_latin = match slot {
        FontSlot::Latin => true,
        _ => false,
    };
    let r = next_raster_step(ch == ' ', hollow, is_latin, latin_has, chosen_has, from_fallback);
    assert(r == raster_step_for(ch, hollow, slot, latin_has, chosen_has, from_fallback));
    r
}

/// Symbols that are centred on the digits.
pub open spec fn is_math_symbol_spec(ch: char) -> bool {
    ch == '+' || ch == '-' || ch == '\u{2212}' || ch == '\u{2013}' || ch == '\u{2014}' || ch == '='
        || ch == '*' || ch == '\u{00D7}' || ch == '\u{00F7}' || ch == '\u{00B1}' || ch == '\u{FF0B}'
        || ch == '\u{FF0D}'
}

/// Whether `ch` is a symbol that is centred on the digits.
pub fn is_math_symbol(ch: char) -> (r: bool)
    ensures
        r == is_math_symbol_spec(ch),
{
    ch == '+' || ch == '-' || ch == '\u{2212}' || ch == '\u{2013}' || ch == '\u{2014}' || ch == '='
        || ch == '*' || ch == '\u{00D7}' || ch == '\u{00F7}' || ch == '\u{00B1}' || ch == '\u{FF0B}'
        || ch == '\u{FF0D}'
}

/// The sum of the top and bottom rows of a `w` by `h` coverage bitmap, over its first `k` columns.
pub open spec fn rim_sum(bitmap: Seq<u8>, w: int, h: int, k: int) -> int
    decreases k,
{
    if k <= 0 {
        0
    } else {
        rim_sum(bitmap, w, h, k - 1) + bitmap[k - 1] + bitmap[(h - 1) * w + k - 1]
    }
}

/// A bitmap at least 5 by 5 whose centre is nearly empty while its top and
/// bottom rows are on average clearly covered: the look of a `.notdef` box.
pub open spec fn hollow_box_spec(bitmap: Seq<u8>, w: int, h: int) -> bool {
    &&& w >= 5
    &&& h >= 5
    &&& bitmap.len() > 0
    &&& bitmap[(h / 2) * w + w / 2] < 32
    &&& rim_sum(bitmap, w, h, w) / (2 * w) > 64
}

/// Whether a coverage bitmap looks like a hollow `.notdef` box.
pub fn looks_like_hollow_box(bitmap: &[u8], w: u32, h: u32) -> (r: bool)
    requires
        w >= 5 && h >= 5 && bitmap@.len() > 0 ==> bitmap@.len() >= w * h,
    ensures
        r == hollow_box_spec(bitmap@, w as int, h as int),
{
    if w < 5 || h < 5 || bitmap.len() == 0 {
        return false;
    }
    let wu = w as usize;
    let hu = h as usize;
    proof {
        assert((h / 2) * w + w / 2 < w * h) by (nonlinear_arith)
            requires
                w >= 5,
                h >= 5,
        ;
        assert((h - 1) * w + w <= w * h) by (nonlinear_arith)
            requires
                w >= 5,
                h >= 5,
        ;
    }
    let center = bitmap[(hu / 2) * wu + wu / 2];
    let mut rim: u64 = 0;
    let mut x: usize = 0;
    while x < wu
        invariant
            wu == w,
            hu == h,
            w >= 5,
            h >= 5,
            bitmap@.len() >= w * h,
            (h - 1) * w + w <= w * h,
            x <= wu,
            rim == rim_sum(bitmap@, w as int, h as int, x as int),
            rim <= 510 * x,
        decreases wu - x,
    {
        rim = rim + bitmap[x] as u64 + bitmap[(hu - 1) * wu + x] as u64;
        x = x + 1;
    }
    let n: u64 = 2 * (w as u64);
    center < 32 && n > 0 && rim / n > 64
}

/// A character after rasterizing, before layout.
#[derive(Debug)]
pub struct Rastered {
    pub ch: char,
    pub glyph: GlyphImage,
    /// No face could draw it; it does not go into the atlas.
    pub missing: bool,
    pub from_fallback: bool,
}

/// The font-wide values layout starts from.
#[derive(Debug)]
pub struct LayoutParams {
    pub face: String,
    /// Pixel size, rounded.
    pub size: i32,
    /// Line height from the face's line metrics plus the extra line spacing.
    pub line_height: i32,
    /// Baseline from the top of the line.
    pub base: i32,
    /// The face's descent at the export scale (negative below the baseline).
    pub descent: i32,
    /// Padding the style adds around each glyph bitmap.
    pub padding: i32,
    /// Give all digits the advance of the widest one.
    pub tabular_nums: bool,
}

/// Largest glyph metric magnitude the layout arithmetic is proved for: 2^24, up to which
/// the faces' single-precision metrics are still exact whole numbers.
pub open spec fn metric_bound() -> int {
    16777216
}

pub open spec fn img_w(g: GlyphImage) -> int {
    width_of(g.image) as int
}

pub open spec fn img_h(g: GlyphImage) -> int {
    height_of(g.image) as int
}

/// Glyph metrics within the proved range.
pub open spec fn glyph_in_range(g: GlyphImage) -> bool {
    &&& -metric_bound() <= g.xoffset <= metric_bound()
    &&& -metric_bound() <= g.yoffset <= metric_bound()
    &&& -metric_bound() <= g.xadvance <= metric_bound()
    &&& img_w(g) <= metric_bound()
    &&& img_h(g) <= metric_bound()
}

pub open spec fn params_in_range(p: LayoutParams) -> bool {
    &&& -metric_bound() <= p.line_height <= metric_bound()
    &&& -metric_bound() <= p.base <= metric_bound()
    &&& -metric_bound() <= p.descent <= metric_bound()
}

/// The glyphs of the characters that were drawn, in order.
pub open spec fn kept_glyphs(rs: Seq<Rastered>) -> Seq<GlyphImage>
    decreases rs.len(),
{
    if rs.len() == 0 {
        Seq::empty()
    } else if rs.last().missing {
        kept_glyphs(rs.drop_last())
    } else {
        kept_glyphs(rs.drop_last()).push(rs.last().glyph)
    }
}

/// The characters no face could draw, in order.
pub open spec fn missing_chars(rs: Seq<Rastered>) -> Seq<char>
    decreases rs.len(),
{
    if rs.len() == 0 {
        Seq::empty()
    } else if rs.last().missing {
        missing_chars(rs.drop_last()).push(rs.last().ch)
    } else {
        missing_chars(rs.drop_last())
    }
}

/// The characters drawn from a fallback face, in order.
pub open spec fn fallback_chars(rs: Seq<Rastered>) -> Seq<char>
    decreases rs.len(),
{
    if rs.len() == 0 {
        Seq::empty()
    } else if !rs.last().missing && rs.last().from_fallback {
        fallback_chars(rs.drop_last()).push(rs.last().ch)
    } else {
        fallback_chars(rs.drop_last())
    }
}

pub open spec fn is_digit(c: char) -> bool {
    '0' <= c <= '9'
}

/// The largest advance among the digit glyphs, if there is a digit.
pub open spec fn digit_max_adv(gs: Seq<GlyphImage>) -> Option<int>
    decreases gs.len(),
{
    if gs.len() == 0 {
        None
    } else {
        let m = digit_max_adv(gs.drop_last());
        let g = gs.last();
        if is_digit(g.ch) {
            match m {
                Some(v) => Some(max_int(v, g.xadvance as int)),
                None => Some(g.xadvance as int),
            }
        } else {
            m
        }
    }
}

/// The advance tabular digits get: that of the widest digit, 0 without digits.
pub open spec fn max_digit_advance(gs: Seq<GlyphImage>) -> int {
    match digit_max_adv(gs) {
        Some(m) => m,
        None => 0,
    }
}

/// Twice the height of a glyph's optical centre below the line top.
pub open spec fn center2(g: GlyphImage) -> int {
    2 * g.yoffset + img_h(g)
}

/// Digits taller than one pixel set the centre symbols align to.
pub open spec fn is_digit_center(g: GlyphImage) -> bool {
    is_digit(g.ch) && img_h(g) > 1
}

pub open spec fn center_sum(gs: Seq<GlyphImage>) -> int
    decreases gs.len(),
{
    if gs.len() == 0 {
        0
    } else if is_digit_center(gs.last()) {
        center_sum(gs.drop_last()) + center2(gs.last())
    } else {
        center_sum(gs.drop_last())
    }
}

pub open spec fn center_count(gs: Seq<GlyphImage>) -> int
    decreases gs.len(),
{
    if gs.len() == 0 {
        0
    } else if is_digit_center(gs.last()) {
        center_count(gs.drop_last()) + 1
    } else {
        center_count(gs.drop_last())
    }
}

/// `num / d` rounded to the nearest integer, halves away from zero.
pub open spec fn round_div(num: int, d: int) -> int {
    if num >= 0 {
        (2 * num + d) / (2 * d)
    } else {
        -((-2 * num + d) / (2 * d))
    }
}

/// The x offset after tabular digits.
pub open spec fn laid_xoffset(g: GlyphImage, tabular: bool, m: int) -> int {
    if tabular && is_digit(g.ch) {
        g.xoffset + (m - g.xadvance) / 2
    } else {
        g.xoffset as int
    }
}

/// The advance after tabular digits.
pub open spec fn laid_xadvance(g: GlyphImage, tabular: bool, m: int) -> int {
    if tabular && is_digit(g.ch) {
        m
    } else {
        g.xadvance as int
    }
}

/// The y offset after centring symbols on the digits: a symbol taller than one
/// pixel moves by the rounded distance from its centre to the mean digit centre.
pub open spec fn laid_yoffset(g: GlyphImage, sum: int, cnt: int) -> int {
    if cnt > 0 && is_math_symbol_spec(g.ch) && img_h(g) > 1 {
        g.yoffset + round_div(sum - cnt * center2(g), 2 * cnt)
    } else {
        g.yoffset as int
    }
}

/// `out` is `g` laid out: same character and bitmap, new offsets and advance.
pub open spec fn laid_out(out: GlyphImage, g: GlyphImage, tabular: bool, m: int, sum: int, cnt: int) -> bool {
    &&& out.id == g.id
    &&& out.ch == g.ch
    &&& out.image == g.image
    &&& out.from_fallback == g.from_fallback
    &&& out.xoffset == laid_xoffset(g, tabular, m)
    &&& out.xadvance == laid_xadvance(g, tabular, m)
    &&& out.yoffset == laid_yoffset(g, sum, cnt)
}

proof fn lemma_round_div_bound(num: int, c: int, k: int)
    requires
        c > 0,
        k >= 1,
        -(k * c) <= num <= k * c,
    ensures
        -k <= round_div(num, 2 * c) <= k,
{
    let d = 2 * c;
    assert(4 * c > 0);
    assert((k * (4 * c)) / (4 * c) == k) by {
        vstd::arithmetic::div_mod::lemma_div_by_multiple(k, 4 * c);
    }
    if num >= 0 {
        assert(0 <= 2 * num + d <= k * (4 * c)) by (nonlinear_arith)
            requires
                0 <= num <= k * c,
                d == 2 * c,
                c > 0,
                k >= 1,
        ;
        vstd::arithmetic::div_mod::lemma_div_is_ordered(2 * num + d, k * (4 * c), 4 * c);
        vstd::arithmetic::div_mod::lemma_div_pos_is_pos(2 * num + d, 4 * c);
        assert(2 * d == 4 * c);
    } else {
        assert(0 <= -2 * num + d <= k * (4 * c)) by (nonlinear_arith)
            requires
                -(k * c) <= num < 0,
                d == 2 * c,
                c > 0,
                k >= 1,
        ;
        vstd::arithmetic::div_mod::lemma_div_is_ordered(-2 * num + d, k * (4 * c), 4 * c);
        vstd::arithmetic::div_mod::lemma_div_pos_is_pos(-2 * num + d, 4 * c);
        assert(2 * d == 4 * c);
    }
}

/// Tabular and centring statistics of the glyphs that were drawn.
struct DigitStats {
    has_digit: bool,
    max_adv: i64,
    sum: i64,
    cnt: i64,
}

fn digit_stats(rs: &Vec<Rastered>) -> (r: DigitStats)
    requires
        rs@.len() <= u32::MAX,
        forall|i: int| 0 <= i < rs@.len() ==> glyph_in_range(#[trigger] rs@[i].glyph),
    ensures
        r.has_digit == (digit_max_adv(kept_glyphs(rs@)) is Some),
        r.has_digit ==> digit_max_adv(kept_glyphs(rs@)) == Some(r.max_adv as int),
        r.sum == center_sum(kept_glyphs(rs@)),
        r.cnt == center_count(kept_glyphs(rs@)),
        0 <= r.cnt <= rs@.len(),
        -50331648 * r.cnt <= r.sum <= 50331648 * r.cnt,
{
    let mut has_digit = false;
    let mut max_adv: i64 = 0;
    let mut sum: i64 = 0;
    let mut cnt: i64 = 0;
    let mut k: usize = 0;
    while k < rs.len()
        invariant
            rs@.len() <= u32::MAX,
            forall|i: int| 0 <= i < rs@.len() ==> glyph_in_range(#[trigger] rs@[i].glyph),
            k <= rs@.len(),
            has_digit == (digit_max_adv(kept_glyphs(rs@.take(k as int))) is Some),
            has_digit ==> digit_max_adv(kept_glyphs(rs@.take(k as int))) == Some(max_adv as int),
            sum == center_sum(kept_glyphs(rs@.take(k as int))),
            cnt == center_count(kept_glyphs(rs@.take(k as int))),
            0 <= cnt <= k,
            k <= u32::MAX,
            -50331648 * cnt <= sum <= 50331648 * cnt,
        decreases rs.len() - k,
    {
        let r = &rs[k];
        let ghost pre = rs@.take(k as int);
        proof {
            assert(rs@.take(k + 1).drop_last() =~= pre);
            assert(rs@.take(k + 1).last() == rs@[k as int]);
        }
        if !r.missing {
            let ghost kg = kept_glyphs(pre);
            proof {
                assert(kept_glyphs(rs@.take(k + 1)) == kg.push(r.glyph));
                assert(kg.push(r.glyph).drop_last() =~= kg);
                assert(glyph_in_range(r.glyph));
            }
            let c = r.glyph.ch;
            if '0' <= c && c <= '9' {
                let adv = r.glyph.xadvance as i64;
                if !has_digit || adv > max_adv {
                    max_adv = adv;
                }
                has_digit = true;
                let h = image_height(&r.glyph.image);
                if h > 1 {
                    let c2: i64 = 2 * (r.glyph.yoffset as i64) + h as i64;
                    assert(-50331648 * (cnt + 1) <= sum + c2 <= 50331648 * (
                    cnt + 1)) by (nonlinear_arith)
                        requires
                            -50331648 * cnt <= sum <= 50331648 * cnt,
                            -50331648 <= c2 <= 3 * metric_bound(),
                    ;
                    assert(50331648 * (cnt + 1) <= 0x400_0000_0000_0000) by (nonlinear_arith)
                        requires
                            0 <= cnt < u32::MAX,
                    ;
                    sum = sum + c2;
                    cnt = cnt + 1;
                }
            }
        } else {
            proof {
                assert(kept_glyphs(rs@.take(k + 1)) == kept_glyphs(pre));
            }
        }
        k = k + 1;
    }
    proof {
        assert(rs@.take(rs@.len() as int) =~= rs@);
    }
    DigitStats { has_digit, max_adv, sum, cnt }
}

proof fn lemma_digit_max(gs: Seq<GlyphImage>, i: int)
    requires
        0 <= i < gs.len(),
        is_digit(gs[i].ch),
    ensures
        digit_max_adv(gs) matches Some(m) && m >= gs[i].xadvance,
    decreases gs.len(),
{
    if i < gs.len() - 1 {
        lemma_digit_max(gs.drop_last(), i);
    }
}

proof fn lemma_digit_max_bound(gs: Seq<GlyphImage>)
    requires
        forall|i: int| 0 <= i < gs.len() ==> glyph_in_range(#[trigger] gs[i]),
    ensures
        digit_max_adv(gs) matches Some(m) ==> -metric_bound() <= m <= metric_bound(),
    decreases gs.len(),
{
    if gs.len() > 0 {
        let d = gs.drop_last();
        assert forall|i: int| 0 <= i < d.len() implies glyph_in_range(#[trigger] d[i]) by {
            assert(d[i] == gs[i]);
        }
        lemma_digit_max_bound(d);
        assert(glyph_in_range(gs[gs.len() - 1]));
    }
}

proof fn lemma_kept_in_range(rs: Seq<Rastered>)
    requires
        forall|i: int| 0 <= i < rs.len() ==> glyph_in_range(#[trigger] rs[i].glyph),
    ensures
        forall|i: int| 0 <= i < kept_glyphs(rs).len() ==> glyph_in_range(#[trigger] kept_glyphs(rs)[i]),
        kept_glyphs(rs).len() <= rs.len(),
    decreases rs.len(),
{
    if rs.len() > 0 {
        let d = rs.drop_last();
        assert forall|i: int| 0 <= i < d.len() implies glyph_in_range(#[trigger] d[i].glyph) by {
            assert(d[i] == rs[i]);
        }
        lemma_kept_in_range(d);
        assert(glyph_in_range(rs[rs.len() - 1].glyph));
    }
}

/// `num / d` rounded to the nearest integer, halves away from zero.
fn round_div_exec(num: i64, d: i64) -> (r: i64)
    requires
        d > 0,
        -0x1000_0000_0000_0000 <= num <= 0x1000_0000_0000_0000,
        d <= 0x1000_0000_0000_0000,
    ensures
        r == round_div(num as int, d as int),
{
    let dd = d as u64;
    if num >= 0 {
        let n = num as u64;
        let q = (2 * n + dd) / (2 * dd);
        assert(q <= 2 * n + dd) by (nonlinear_arith)
            requires
                q == (2 * n + dd) / (2 * dd),
                dd > 0,
        ;
        q as i64
    } else {
        let n = (-num) as u64;
        let q = (2 * n + dd) / (2 * dd);
        assert(q <= 2 * n + dd) by (nonlinear_arith)
            requires
                q == (2 * n + dd) / (2 * dd),
                dd > 0,
        ;
        -(q as i64)
    }
}

/// Tabular digits and symbols centred on the digits, for every drawn glyph;
/// the characters that were missing or came from a fallback face.
fn lay_out_glyphs(rs: Vec<Rastered>, tabular: bool, stats: &DigitStats) -> (r: (
    Vec<GlyphImage>,
    Vec<char>,
    Vec<char>,
))
    requires
        rs@.len() <= u32::MAX,
        forall|i: int| 0 <= i < rs@.len() ==> glyph_in_range(#[trigger] rs@[i].glyph),
        stats.has_digit == (digit_max_adv(kept_glyphs(rs@)) is Some),
        stats.has_digit ==> digit_max_adv(kept_glyphs(rs@)) == Some(stats.max_adv as int),
        stats.sum == center_sum(kept_glyphs(rs@)),
        stats.cnt == center_count(kept_glyphs(rs@)),
        0 <= stats.cnt <= rs@.len(),
        -50331648 * stats.cnt <= stats.sum <= 50331648 * stats.cnt,
    ensures
        r.0@.len() == kept_glyphs(rs@).len(),
        forall|i: int|
            0 <= i < r.0@.len() ==> laid_out(
                #[trigger] r.0@[i],
                kept_glyphs(rs@)[i],
                tabular,
                max_digit_advance(kept_glyphs(rs@)),
                stats.sum as int,
                stats.cnt as int,
            ),
        forall|i: int|
            0 <= i < r.0@.len() ==> -117440512 <= (#[trigger] r.0@[i]).yoffset <= 117440512 && img_h(
                r.0@[i],
            ) <= metric_bound(),
        r.1@ == missing_chars(rs@),
        r.2@ == fallback_chars(rs@),
{
    let ghost rs0 = rs@;
    let ghost kall = kept_glyphs(rs0);
    proof {
        lemma_kept_in_range(rs0);
        lemma_digit_max_bound(kall);
    }
    let m: i64 = if stats.has_digit {
        stats.max_adv
    } else {
        0
    };
    assert(m == max_digit_advance(kall));
    let sum = stats.sum;
    let cnt = stats.cnt;
    let mut glyphs: Vec<GlyphImage> = Vec::new();
    let mut missing: Vec<char> = Vec::new();
    let mut fallback: Vec<char> = Vec::new();
    let mut k: usize = 0;
    for r in it: rs.into_iter()
        invariant
            it.seq() == rs0,
            rs0.len() <= u32::MAX,
            forall|i: int| 0 <= i < rs0.len() ==> glyph_in_range(#[trigger] rs0[i].glyph),
            kall == kept_glyphs(rs0),
            forall|i: int| 0 <= i < kall.len() ==> glyph_in_range(#[trigger] kall[i]),
            m == max_digit_advance(kall),
            -metric_bound() <= m <= metric_bound(),
            0 <= cnt <= rs0.len(),
            -50331648 * cnt <= sum <= 50331648 * cnt,
            sum == center_sum(kall),
            cnt == center_count(kall),
            k == it.index(),
            k <= rs0.len(),
            glyphs@.len() == kept_glyphs(rs0.take(k as int)).len(),
            kept_glyphs(rs0.take(k as int)).len() <= kall.len(),
            forall|i: int| 0 <= i < glyphs@.len() ==> kept_glyphs(rs0.take(k as int))[i] == kall[i],
            forall|i: int|
                0 <= i < glyphs@.len() ==> laid_out(#[trigger] glyphs@[i], kall[i], tabular, m as int, sum as int, cnt as int),
            forall|i: int|
                0 <= i < glyphs@.len() ==> -117440512 <= (#[trigger] glyphs@[i]).yoffset <= 117440512
                    && img_h(glyphs@[i]) <= metric_bound(),
            missing@ == missing_chars(rs0.take(k as int)),
            fallback@ == fallback_chars(rs0.take(k as int)),
    {
        let ghost pre = rs0.take(k as int);
        proof {
            assert(rs0.take(k + 1).drop_last() =~= pre);
            assert(rs0.take(k + 1).last() == rs0[k as int]);
            assert(r == rs0[k as int]);
            lemma_kept_prefix(rs0, k as int);
        }
        if r.missing {
            missing.push(r.ch);
        } else {
            if r.from_fallback {
                fallback.push(r.ch);
            }
            let g = r.glyph;
            let ghost gi = glyphs@.len() as int;
            proof {
                assert(kept_glyphs(rs0.take(k + 1)) == kept_glyphs(pre).push(g));
                assert(kall[gi] == g);
                assert(glyph_in_range(g));
            }
            let c = g.ch;
            let xo: i64;
            let xa: i64;
            if tabular && '0' <= c && c <= '9' {
                proof {
                    lemma_digit_max(kall, gi);
                }
                let diff: i64 = m - g.xadvance as i64;
                xo = g.xoffset as i64 + diff / 2;
                xa = m;
            } else {
                xo = g.xoffset as i64;
                xa = g.xadvance as i64;
            }
            let h = image_height(&g.image);
            let mut yo: i64 = g.yoffset as i64;
            if cnt > 0 && is_math_symbol(c) && h > 1 {
                let c2: i64 = 2 * (g.yoffset as i64) + h as i64;
                assert(-(50331648 * cnt) <= cnt * c2 <= 50331648 * cnt) by (nonlinear_arith)
                    requires
                        0 < cnt,
                        -50331648 <= c2 <= 50331648,
                ;
                assert(50331648 * cnt <= 0x400_0000_0000_0000) by (nonlinear_arith)
                    requires
                        0 <= cnt <= u32::MAX,
                ;
                let num: i64 = sum - cnt * c2;
                proof {
                    lemma_round_div_bound(num as int, cnt as int, 100663296);
                }
                let shift = round_div_exec(num, 2 * cnt);
                yo = yo + shift;
            }
            let out = GlyphImage {
                xoffset: xo as i32,
                yoffset: yo as i32,
                xadvance: xa as i32,
                ..g
            };
            glyphs.push(out);
        }
        k = k + 1;
    }
    proof {
        assert(rs0.take(rs0.len() as int) =~= rs0);
    }
    (glyphs, missing, fallback)
}

/// Each step of `kept_glyphs` only appends.
proof fn lemma_kept_prefix(rs: Seq<Rastered>, k: int)
    requires
        0 <= k < rs.len(),
    ensures
        forall|i: int|
            0 <= i < kept_glyphs(rs.take(k)).len() ==> kept_glyphs(rs.take(k))[i] == kept_glyphs(
                rs.take(k + 1),
            )[i],
        kept_glyphs(rs.take(k)).len() <= kept_glyphs(rs.take(k + 1)).len(),
        kept_glyphs(rs.take(k + 1)).len() <= kept_glyphs(rs).len(),
        forall|i: int|
            0 <= i < kept_glyphs(rs.take(k + 1)).len() ==> kept_glyphs(rs.take(k + 1))[i]
                == kept_glyphs(rs)[i],
{
    assert(rs.take(k + 1).drop_last() =~= rs.take(k));
    lemma_kept_extends(rs, k + 1);
}

/// The glyphs kept from a prefix are a prefix of those kept from the whole.
proof fn lemma_kept_extends(rs: Seq<Rastered>, k: int)
    requires
        0 <= k <= rs.len(),
    ensures
        kept_glyphs(rs.take(k)).len() <= kept_glyphs(rs).len(),
        forall|i: int|
            0 <= i < kept_glyphs(rs.take(k)).len() ==> kept_glyphs(rs.take(k))[i] == kept_glyphs(rs)[i],
    decreases rs.len() - k,
{
    if k == rs.len() {
        assert(rs.take(k) =~= rs);
    } else {
        lemma_kept_extends(rs, k + 1);
        assert(rs.take(k + 1).drop_last() =~= rs.take(k));
    }
}

/// The lowest glyph bottom (y offset plus bitmap height) among the first `k`
/// glyphs, or `lh` when that is lower.
pub open spec fn max_bottom(gs: Seq<GlyphImage>, k: int, lh: int) -> int
    decreases k,
{
    if k <= 0 {
        lh
    } else {
        max_int(max_bottom(gs, k - 1, lh), gs[k - 1].yoffset + img_h(gs[k - 1]))
    }
}

/// The atlas cell of a glyph: its bitmap size, at least one pixel each way.
pub open spec fn glyph_sizes(gs: Seq<GlyphImage>) -> Seq<(u32, u32)> {
    gs.map_values(
        |g: GlyphImage|
            (
                (if img_w(g) >= 1 {
                    img_w(g)
                } else {
                    1
                }) as u32,
                (if img_h(g) >= 1 {
                    img_h(g)
                } else {
                    1
                }) as u32,
            ),
    )
}

/// Glyph `g` is drawn over pixel `(px, py)` of page `k`.
pub open spec fn covers(g: GlyphImage, k: int, px: int, py: int) -> bool {
    g.page == k && crate::raster::in_rect(px, py, g.x as int, g.y as int, img_w(g), img_h(g))
}

/// Pixel `(px, py)` of page `k` once the first `j` glyphs are drawn into it:
/// that of the last glyph covering it, else transparent.
pub open spec fn page_pixel(gs: Seq<GlyphImage>, j: int, k: int, px: int, py: int) -> [u8; 4]
    decreases j,
{
    if j <= 0 {
        [0u8, 0u8, 0u8, 0u8]
    } else if covers(gs[j - 1], k, px, py) {
        pixel_at(gs[j - 1].image, px - gs[j - 1].x, py - gs[j - 1].y)
    } else {
        page_pixel(gs, j - 1, k, px, py)
    }
}

/// `a` is `b` with only its place in the atlas changed.
pub open spec fn same_but_place(a: GlyphImage, b: GlyphImage) -> bool {
    &&& a.id == b.id
    &&& a.ch == b.ch
    &&& a.image == b.image
    &&& a.xoffset == b.xoffset
    &&& a.yoffset == b.yoffset
    &&& a.xadvance == b.xadvance
    &&& a.from_fallback == b.from_fallback
}

/// Glyph `g` sits where slot `s` of the packing puts it.
pub open spec fn at_slot(sizes: Seq<(u32, u32)>, g: GlyphImage, s: (int, int, int, int)) -> bool {
    &&& g.x == s.1
    &&& g.y == s.2
    &&& g.width == sizes[s.0].0
    &&& g.height == sizes[s.0].1
    &&& g.page == s.3
}

/// Two glyph cells lie at least `gap` pixels apart along one axis.
pub open spec fn cells_apart(a: GlyphImage, b: GlyphImage, gap: int) -> bool {
    ||| a.x + a.width + gap <= b.x
    ||| b.x + b.width + gap <= a.x
    ||| a.y + a.height + gap <= b.y
    ||| b.y + b.height + gap <= a.y
}

/// Where the glyphs and pages of an atlas ended up: the exact packing of the
/// glyph cells, every cell inside its page, cells of one page apart, and each
/// page pixel that of the glyph drawn over it (transparent elsewhere).
pub open spec fn atlas_spec(gs: Seq<GlyphImage>, pages: Seq<Image>, opt: PackOptions) -> bool {
    let sizes = glyph_sizes(gs);
    &&& packing(sizes, opt) matches Some((sl, d)) && {
        &&& sl.len() == gs.len()
        &&& forall|t: int| 0 <= t < sl.len() ==> at_slot(sizes, #[trigger] gs[sl[t].0], sl[t])
        &&& pages.len() == d.len()
        &&& forall|k: int|
            0 <= k < d.len() ==> width_of(#[trigger] pages[k]) == d[k].0 && height_of(pages[k]) == d[k].1
    }
    &&& pages.len() >= 1
    &&& forall|i: int|
        #![trigger gs[i]]
        0 <= i < gs.len() ==> {
            &&& gs[i].page < pages.len()
            &&& img_w(gs[i]) <= gs[i].width
            &&& img_h(gs[i]) <= gs[i].height
            &&& gs[i].x + gs[i].width <= width_of(pages[gs[i].page as int])
            &&& gs[i].y + gs[i].height <= height_of(pages[gs[i].page as int])
        }
    &&& forall|k: int|
        #![trigger pages[k]]
        0 <= k < pages.len() ==> {
            &&& 1 <= width_of(pages[k]) <= opt.max_size
            &&& 1 <= height_of(pages[k]) <= opt.max_size
            &&& opt.square ==> width_of(pages[k]) == height_of(pages[k])
        }
    &&& forall|i: int, j: int|
        0 <= i < gs.len() && 0 <= j < gs.len() && i != j && #[trigger] gs[i].page
            == #[trigger] gs[j].page ==> cells_apart(gs[i], gs[j], gap_of(opt))
    &&& forall|k: int, px: int, py: int|
        0 <= k < pages.len() && 0 <= px < width_of(pages[k]) && 0 <= py < height_of(pages[k])
            ==> #[trigger] pixel_at(pages[k], px, py) == page_pixel(gs, gs.len() as int, k, px, py)
}

/// The atlas pages of every page's buffer fit in memory.
pub open spec fn pages_fit(sizes: Seq<(u32, u32)>, opt: PackOptions) -> bool {
    packing(sizes, opt) matches Some((sl, d)) ==> forall|k: int|
        0 <= k < d.len() ==> buffer_len((#[trigger] d[k]).0, d[k].1) <= usize::MAX
}

/// The packing read back on the glyph records.
proof fn lemma_atlas_layout(
    g0: Seq<GlyphImage>,
    gp: Seq<GlyphImage>,
    ss: Seq<(u32, u32)>,
    opt: PackOptions,
    packed: Seq<crate::pack::PackedGlyph>,
    ppages: Seq<crate::pack::PackedPage>,
)
    requires
        ss == glyph_sizes(g0),
        gp.len() == g0.len(),
        packed.len() == g0.len(),
        forall|j: int| 0 <= j < g0.len() ==> same_but_place(#[trigger] gp[j], g0[j]),
        forall|j: int|
            0 <= j < g0.len() ==> (#[trigger] gp[j]).x == packed[j].x && gp[j].y == packed[j].y
                && gp[j].width == packed[j].w && gp[j].height == packed[j].h && gp[j].page
                == packed[j].page,
        packing(ss, opt) matches Some((sl, d)) && {
            &&& sl.len() == packed.len()
            &&& forall|t: int|
                0 <= t < sl.len() ==> crate::pack::slot_matches(ss, #[trigger] packed[sl[t].0], sl[t])
            &&& forall|t: int| 0 <= t < sl.len() ==> 0 <= (#[trigger] sl[t]).0 < packed.len()
            &&& ppages.len() == d.len()
            &&& forall|k: int|
                0 <= k < d.len() ==> (#[trigger] ppages[k]).width == d[k].0 && ppages[k].height
                    == d[k].1
        },
        crate::pack::packing_laws(ss, opt, packed, ppages),
        forall|j: int| 0 <= j < g0.len() ==> img_w(#[trigger] g0[j]) <= u32::MAX && img_h(g0[j]) <= u32::MAX,
    ensures
        glyph_sizes(gp) == ss,
        packing(ss, opt) matches Some((sl, d)) && {
            &&& sl.len() == gp.len()
            &&& forall|t: int| 0 <= t < sl.len() ==> at_slot(ss, #[trigger] gp[sl[t].0], sl[t])
            &&& d.len() >= 1
            &&& forall|i: int|
                #![trigger gp[i]]
                0 <= i < gp.len() ==> {
                    &&& gp[i].page < d.len()
                    &&& img_w(gp[i]) <= gp[i].width
                    &&& img_h(gp[i]) <= gp[i].height
                    &&& gp[i].x + gp[i].width <= d[gp[i].page as int].0
                    &&& gp[i].y + gp[i].height <= d[gp[i].page as int].1
                }
            &&& forall|k: int|
                #![trigger d[k]]
                0 <= k < d.len() ==> {
                    &&& 1 <= d[k].0 <= opt.max_size
                    &&& 1 <= d[k].1 <= opt.max_size
                    &&& opt.square ==> d[k].0 == d[k].1
                }
        },
        forall|i: int, j: int|
            0 <= i < gp.len() && 0 <= j < gp.len() && i != j && #[trigger] gp[i].page
                == #[trigger] gp[j].page ==> cells_apart(gp[i], gp[j], gap_of(opt)),
{
    assert(glyph_sizes(gp) =~= ss) by {
        assert forall|j: int| 0 <= j < gp.len() implies glyph_sizes(gp)[j] == ss[j] by {
            assert(gp[j].image == g0[j].image);
        }
    }
    let (sl, d) = packing(ss, opt).unwrap();
    assert forall|t: int| 0 <= t < sl.len() implies at_slot(ss, #[trigger] gp[sl[t].0], sl[t]) by {
        assert(crate::pack::slot_matches(ss, packed[sl[t].0], sl[t]));
        assert(packed[sl[t].0].index == sl[t].0);
    }
    assert forall|i: int| #![trigger gp[i]] 0 <= i < gp.len() implies {
        &&& gp[i].page < d.len()
        &&& img_w(gp[i]) <= gp[i].width
        &&& img_h(gp[i]) <= gp[i].height
        &&& gp[i].x + gp[i].width <= d[gp[i].page as int].0
        &&& gp[i].y + gp[i].height <= d[gp[i].page as int].1
    } by {
        assert(packed[i].index == i);
        assert(gp[i].image == g0[i].image);
        assert(ss[i] == glyph_sizes(g0)[i]);
        assert(ppages[packed[i].page as int].width == d[packed[i].page as int].0);
    }
    assert forall|k: int| #![trigger d[k]] 0 <= k < d.len() implies {
        &&& 1 <= d[k].0 <= opt.max_size
        &&& 1 <= d[k].1 <= opt.max_size
        &&& opt.square ==> d[k].0 == d[k].1
    } by {
        assert(ppages[k].width == d[k].0);
    }
    assert(ppages.len() >= 1);
    assert forall|i: int, j: int|
        0 <= i < gp.len() && 0 <= j < gp.len() && i != j && #[trigger] gp[i].page
            == #[trigger] gp[j].page implies cells_apart(gp[i], gp[j], gap_of(opt)) by {
        assert(packed[i].page == packed[j].page);
        assert(crate::pack::apart(packed[i], packed[j], gap_of(opt)));
    }
}

/// Packs the glyph cells, draws every glyph into its page, and records each
/// glyph's place.
fn place_glyphs(glyphs: &mut Vec<GlyphImage>, opt: &PackOptions) -> (r: Result<Vec<Image>, Error>)
    requires
        old(glyphs)@.len() <= u32::MAX,
        pages_fit(glyph_sizes(old(glyphs)@), *opt),
        forall|j: int|
            0 <= j < old(glyphs)@.len() ==> img_w(#[trigger] old(glyphs)@[j]) <= u32::MAX && img_h(
                old(glyphs)@[j],
            ) <= u32::MAX,
    ensures
        old(glyphs)@.len() == 0 ==> r matches Err(Error::Empty),
        old(glyphs)@.len() > 0 && !all_fit(glyph_sizes(old(glyphs)@), opt.max_size as int, gap_of(*opt))
            ==> (r matches Err(Error::AtlasTooSmall(m)) && m == opt.max_size),
        old(glyphs)@.len() > 0 && all_fit(glyph_sizes(old(glyphs)@), opt.max_size as int, gap_of(*opt))
            ==> r is Ok,
        r matches Ok(pages) ==> {
            &&& final(glyphs)@.len() == old(glyphs)@.len()
            &&& forall|i: int|
                0 <= i < old(glyphs)@.len() ==> same_but_place(#[trigger] final(glyphs)@[i], old(glyphs)@[i])
            &&& atlas_spec(final(glyphs)@, pages@, *opt)
        },
{
    let n = glyphs.len();
    let ghost g0 = glyphs@;
    let mut sizes: Vec<(u32, u32)> = Vec::new();
    let mut k: usize = 0;
    while k < n
        invariant
            n == glyphs@.len(),
            glyphs@ == g0,
            k <= n,
            sizes@ == glyph_sizes(g0).take(k as int),
        decreases n - k,
    {
        let w = image_width(&glyphs[k].image);
        let h = image_height(&glyphs[k].image);
        let cell = (if w >= 1 { w } else { 1 }, if h >= 1 { h } else { 1 });
        sizes.push(cell);
        assert(sizes@ =~= glyph_sizes(g0).take(k + 1));
        k = k + 1;
    }
    assert(sizes@ =~= glyph_sizes(g0));
    let ghost ss = sizes@;
    let (packed, ppages) = match pack_glyphs(sizes.as_slice(), opt) {
        Ok(v) => v,
        Err(e) => {
            return Err(e);
        },
    };
    let np = ppages.len();
    let mut pages: Vec<Image> = Vec::new();
    let ghost d = packing(ss, *opt).unwrap().1;
    let mut q: usize = 0;
    while q < np
        invariant
            np == ppages@.len(),
            np == d.len(),
            pages_fit(ss, *opt),
            packing(ss, *opt) == Some((packing(ss, *opt).unwrap().0, d)),
            forall|k: int| 0 <= k < d.len() ==> (#[trigger] ppages@[k]).width == d[k].0 && ppages@[k].height == d[k].1,
            q <= np,
            pages@.len() == q,
            forall|k: int|
                0 <= k < q ==> crate::raster::is_filled(#[trigger] pages@[k], d[k].0 as nat, d[k].1 as nat, [0u8, 0u8, 0u8, 0u8]),
        decreases np - q,
    {
        proof {
            let (sl2, d2) = packing(ss, *opt).unwrap();
            assert(d2 == d);
            assert(buffer_len(d2[q as int].0, d2[q as int].1) <= usize::MAX);
        }
        let img = image_from_pixel(ppages[q].width, ppages[q].height, [0u8, 0u8, 0u8, 0u8]);
        pages.push(img);
        q = q + 1;
    }
    let mut i: usize = 0;
    while i < n
        invariant
            n == glyphs@.len(),
            n == g0.len(),
            n == packed@.len(),
            i <= n,
            forall|j: int| 0 <= j < n ==> same_but_place(#[trigger] glyphs@[j], g0[j]),
            forall|j: int|
                0 <= j < i ==> (#[trigger] glyphs@[j]).x == packed@[j].x && glyphs@[j].y == packed@[j].y
                    && glyphs@[j].width == packed@[j].w && glyphs@[j].height == packed@[j].h
                    && glyphs@[j].page == packed@[j].page,
        decreases n - i,
    {
        let pg = &packed[i];
        let (px, py, pw, ph, pp) = (pg.x, pg.y, pg.w, pg.h, pg.page);
        glyphs[i].x = px;
        glyphs[i].y = py;
        glyphs[i].width = pw;
        glyphs[i].height = ph;
        glyphs[i].page = pp;
        i = i + 1;
    }
    let ghost gp = glyphs@;
    proof {
        lemma_atlas_layout(g0, gp, ss, *opt, packed@, ppages@);
        assert forall|k: int, px: int, py: int|
            0 <= k < np && 0 <= px < width_of(pages@[k]) && 0 <= py < height_of(pages@[k])
                implies #[trigger] pixel_at(pages@[k], px, py) == page_pixel(gp, 0, k, px, py) by {
            assert(crate::raster::is_filled(pages@[k], d[k].0 as nat, d[k].1 as nat, [0u8, 0u8, 0u8, 0u8]));
            crate::raster::lemma_index(d[k].0, d[k].1, px, py, 0, 0);
        }
    }
    let mut j: usize = 0;
    while j < n
        invariant
            n == glyphs@.len(),
            glyphs@ == gp,
            pages@.len() == np,
            forall|k: int|
                0 <= k < np ==> width_of(#[trigger] pages@[k]) == d[k].0 && height_of(pages@[k]) == d[k].1,
            forall|i: int| 0 <= i < n ==> (#[trigger] gp[i]).page < np,
            j <= n,
            forall|k: int, px: int, py: int|
                0 <= k < np && 0 <= px < width_of(pages@[k]) && 0 <= py < height_of(pages@[k])
                    ==> #[trigger] pixel_at(pages@[k], px, py) == page_pixel(gp, j as int, k, px, py),
        decreases n - j,
    {
        let p = glyphs[j].page as usize;
        assert(gp[j as int].page < np);
        let ghost before = pages@;
        blit(&mut pages[p], &glyphs[j].image, glyphs[j].x, glyphs[j].y);
        proof {
            assert forall|k: int, px: int, py: int|
                0 <= k < np && 0 <= px < width_of(pages@[k]) && 0 <= py < height_of(pages@[k])
                    implies #[trigger] pixel_at(pages@[k], px, py) == page_pixel(gp, j + 1, k, px, py) by {
                if k != p {
                    assert(pages@[k] == before[k]);
                } else {
                    assert(pixel_at(before[k], px, py) == page_pixel(gp, j as int, k, px, py));
                }
            }
        }
        j = j + 1;
    }
    proof {
        let (sl, dd) = packing(ss, *opt).unwrap();
        assert(dd == d);
        assert forall|k: int| #![trigger pages@[k]] 0 <= k < pages@.len() implies {
            &&& 1 <= width_of(pages@[k]) <= opt.max_size
            &&& 1 <= height_of(pages@[k]) <= opt.max_size
            &&& opt.square ==> width_of(pages@[k]) == height_of(pages@[k])
        } by {
            assert(width_of(pages@[k]) == d[k].0);
        }
        assert forall|i: int| #![trigger gp[i]] 0 <= i < gp.len() implies {
            &&& gp[i].page < pages@.len()
            &&& img_w(gp[i]) <= gp[i].width
            &&& img_h(gp[i]) <= gp[i].height
            &&& gp[i].x + gp[i].width <= width_of(pages@[gp[i].page as int])
            &&& gp[i].y + gp[i].height <= height_of(pages@[gp[i].page as int])
        } by {
            assert(width_of(pages@[gp[i].page as int]) == d[gp[i].page as int].0);
        }
    }
    Ok(pages)
}

/// The line height: the given one, raised to reach every glyph's bottom, and
/// to the depth of the face's descender below the baseline.
fn line_height_of(glyphs: &Vec<GlyphImage>, lh0: i32, base: i32, descent: i32) -> (r: i32)
    requires
        -metric_bound() <= lh0 <= metric_bound(),
        -metric_bound() <= base <= metric_bound(),
        -metric_bound() <= descent <= metric_bound(),
        forall|i: int|
            0 <= i < glyphs@.len() ==> -117440512 <= (#[trigger] glyphs@[i]).yoffset <= 117440512
                && img_h(glyphs@[i]) <= metric_bound(),
    ensures
        r == max_int(max_bottom(glyphs@, glyphs@.len() as int, lh0 as int), base - descent),
{
    let mut lh: i64 = lh0 as i64;
    let mut k: usize = 0;
    while k < glyphs.len()
        invariant
            k <= glyphs@.len(),
            -metric_bound() <= lh0 <= metric_bound(),
            forall|i: int|
                0 <= i < glyphs@.len() ==> -117440512 <= (#[trigger] glyphs@[i]).yoffset <= 117440512
                    && img_h(glyphs@[i]) <= metric_bound(),
            lh == max_bottom(glyphs@, k as int, lh0 as int),
            -metric_bound() <= lh <= 134217728,
        decreases glyphs.len() - k,
    {
        let h = image_height(&glyphs[k].image);
        assert(img_h(glyphs@[k as int]) <= metric_bound());
        let bottom: i64 = glyphs[k].yoffset as i64 + h as i64;
        if bottom > lh {
            lh = bottom;
        }
        k = k + 1;
    }
    let floor: i64 = base as i64 - descent as i64;
    if floor > lh {
        lh = floor;
    }
    lh as i32
}

/// Everything layout promises of a generated font, from the rasterized
/// characters `rs`, the font-wide values `p` and the packing options.
pub open spec fn layout_spec(rs: Seq<Rastered>, p: LayoutParams, opt: PackOptions, f: GeneratedFont) -> bool {
    let k = kept_glyphs(rs);
    &&& f.face@ == p.face@
    &&& f.size == p.size
    &&& f.base == p.base
    &&& f.padding == p.padding
    &&& f.spacing == opt.spacing as i32
    &&& f.kernings@.len() == 0
    &&& f.missing@ == missing_chars(rs)
    &&& f.fallback_used@ == fallback_chars(rs)
    &&& f.glyphs@.len() == k.len()
    &&& forall|i: int|
        0 <= i < k.len() ==> laid_out(
            #[trigger] f.glyphs@[i],
            k[i],
            p.tabular_nums,
            max_digit_advance(k),
            center_sum(k),
            center_count(k),
        )
    &&& f.line_height == max_int(max_bottom(f.glyphs@, k.len() as int, p.line_height as int), p.base - p.descent)
    &&& atlas_spec(f.glyphs@, f.pages@, opt)
    &&& f.scale_w == width_of(f.pages@[0])
    &&& f.scale_h == height_of(f.pages@[0])
}

/// Lays out the rasterized characters of a font: drops the missing ones,
/// gives digits a common advance when asked, centres symbols on the digits,
/// sets the line height, packs the glyphs and draws the atlas pages.
/// Kerning is left empty.
pub fn assemble_font(params: LayoutParams, rendered: Vec<Rastered>, pack: &PackOptions) -> (r: Result<
    GeneratedFont,
    Error,
>)
    requires
        rendered@.len() <= u32::MAX,
        forall|i: int| 0 <= i < rendered@.len() ==> glyph_in_range(#[trigger] rendered@[i].glyph),
        params_in_range(params),
        pages_fit(glyph_sizes(kept_glyphs(rendered@)), *pack),
    ensures
        kept_glyphs(rendered@).len() == 0 ==> r matches Err(Error::Empty),
        kept_glyphs(rendered@).len() > 0 && !all_fit(
            glyph_sizes(kept_glyphs(rendered@)),
            pack.max_size as int,
            gap_of(*pack),
        ) ==> (r matches Err(Error::AtlasTooSmall(m)) && m == pack.max_size),
        kept_glyphs(rendered@).len() > 0 && all_fit(
            glyph_sizes(kept_glyphs(rendered@)),
            pack.max_size as int,
            gap_of(*pack),
        ) ==> r is Ok,
        r matches Ok(f) ==> layout_spec(rendered@, params, *pack, f),
{
    let ghost rs = rendered@;
    let ghost k = kept_glyphs(rs);
    proof {
        lemma_kept_in_range(rs);
    }
    let stats = digit_stats(&rendered);
    let (mut glyphs, missing, fallback_used) = lay_out_glyphs(rendered, params.tabular_nums, &stats);
    if glyphs.len() == 0 {
        return Err(Error::Empty);
    }
    let line_height = line_height_of(&glyphs, params.line_height, params.base, params.descent);
    let ghost laid = glyphs@;
    proof {
        assert(glyph_sizes(laid) =~= glyph_sizes(k)) by {
            assert forall|j: int| 0 <= j < laid.len() implies glyph_sizes(laid)[j] == glyph_sizes(k)[j] by {
                assert(laid_out(laid[j], k[j], params.tabular_nums, max_digit_advance(k), stats.sum as int, stats.cnt as int));
            }
        }
        assert forall|j: int| 0 <= j < laid.len() implies img_w(#[trigger] laid[j]) <= u32::MAX && img_h(
            laid[j],
        ) <= u32::MAX by {
            assert(laid_out(laid[j], k[j], params.tabular_nums, max_digit_advance(k), stats.sum as int, stats.cnt as int));
            assert(glyph_in_range(k[j]));
        }
    }
    let pages = match place_glyphs(&mut glyphs, pack) {
        Ok(p) => p,
        Err(e) => {
            return Err(e);
        },
    };
    proof {
        assert forall|i: int| 0 <= i < k.len() implies laid_out(
            #[trigger] glyphs@[i],
            k[i],
            params.tabular_nums,
            max_digit_advance(k),
            center_sum(k),
            center_count(k),
        ) by {
            assert(same_but_place(glyphs@[i], laid[i]));
        }
        assert forall|i: int| 0 <= i <= k.len() implies max_bottom(glyphs@, i, params.line_height as int)
            == max_bottom(laid, i, params.line_height as int) by {
            lemma_max_bottom_same(glyphs@, laid, i, params.line_height as int);
        }
    }
    let scale_w = image_width(&pages[0]);
    let scale_h = image_height(&pages[0]);
    Ok(GeneratedFont {
        face: params.face,
        size: params.size,
        line_height,
        base: params.base,
        padding: params.padding,
        spacing: pack.spacing as i32,
        scale_w,
        scale_h,
        glyphs,
        pages,
        kernings: Vec::new(),
        missing,
        fallback_used,
    })
}

proof fn lemma_max_bottom_same(a: Seq<GlyphImage>, b: Seq<GlyphImage>, k: int, lh: int)
    requires
        0 <= k <= a.len(),
        a.len() == b.len(),
        forall|j: int| 0 <= j < a.len() ==> same_but_place(#[trigger] a[j], b[j]),
    ensures
        max_bottom(a, k, lh) == max_bottom(b, k, lh),
    decreases k,
{
    if k > 0 {
        lemma_max_bottom_same(a, b, k - 1, lh);
        assert(same_but_place(a[k - 1], b[k - 1]));
    }
}


/// Rounding to the nearest integer is off by at most half: `num / d` and
/// `round_div(num, d)` differ by at most one half.
proof fn lemma_round_div_close(num: int, d: int)
    requires
        d > 0,
    ensures
        -d <= 2 * (num - d * round_div(num, d)) <= d,
{
    if num >= 0 {
        let a = 2 * num + d;
        vstd::arithmetic::div_mod::lemma_fundamental_div_mod(a, 2 * d);
        vstd::arithmetic::div_mod::lemma_mod_bound(a, 2 * d);
        let q = a / (2 * d);
        assert(2 * (num - d * q) == a % (2 * d) - d) by (nonlinear_arith)
            requires
                a == 2 * num + d,
                a == (2 * d) * q + a % (2 * d),
        ;
        assert(round_div(num, d) == q);
    } else {
        let a = -2 * num + d;
        vstd::arithmetic::div_mod::lemma_fundamental_div_mod(a, 2 * d);
        vstd::arithmetic::div_mod::lemma_mod_bound(a, 2 * d);
        let q = a / (2 * d);
        assert(2 * (num + d * q) == d - a % (2 * d)) by (nonlinear_arith)
            requires
                a == -2 * num + d,
                a == (2 * d) * q + a % (2 * d),
        ;
        assert(round_div(num, d) == -q);
        assert(d * round_div(num, d) == -(d * q)) by (nonlinear_arith)
            requires
                round_div(num, d) == -q,
        ;
    }
}

/// Law: with tabular digits, every digit of the font has the same advance, that of
/// the widest digit drawn, and no digit's advance shrinks.
pub proof fn lemma_tabular_digits(rs: Seq<Rastered>, p: LayoutParams, opt: PackOptions, f: GeneratedFont, i: int, j: int)
    requires
        layout_spec(rs, p, opt, f),
        p.tabular_nums,
        0 <= i < f.glyphs@.len(),
        0 <= j < f.glyphs@.len(),
        is_digit(f.glyphs@[i].ch),
        is_digit(f.glyphs@[j].ch),
    ensures
        f.glyphs@[i].xadvance == f.glyphs@[j].xadvance,
        f.glyphs@[i].xadvance == max_digit_advance(kept_glyphs(rs)),
        f.glyphs@[i].xadvance >= kept_glyphs(rs)[i].xadvance,
{
    let k = kept_glyphs(rs);
    assert(laid_out(f.glyphs@[i], k[i], p.tabular_nums, max_digit_advance(k), center_sum(k), center_count(k)));
    assert(laid_out(f.glyphs@[j], k[j], p.tabular_nums, max_digit_advance(k), center_sum(k), center_count(k)));
    lemma_digit_max(k, i);
}

/// Law: a symbol taller than a pixel (`+`, `-`, `=`, ...) is moved so that its centre
/// lies within half a pixel of the mean centre of the digits taller than a pixel:
/// with `c2` twice its centre, `n` digits and `s` the sum of theirs, `|n c2 - s| <= n`.
pub proof fn lemma_symbol_centred(rs: Seq<Rastered>, p: LayoutParams, opt: PackOptions, f: GeneratedFont, i: int)
    requires
        layout_spec(rs, p, opt, f),
        center_count(kept_glyphs(rs)) > 0,
        0 <= i < f.glyphs@.len(),
        is_math_symbol_spec(f.glyphs@[i].ch),
        img_h(f.glyphs@[i]) > 1,
    ensures
        -center_count(kept_glyphs(rs)) <= center_count(kept_glyphs(rs)) * center2(f.glyphs@[i]) - center_sum(
            kept_glyphs(rs),
        ) <= center_count(kept_glyphs(rs)),
{
    let k = kept_glyphs(rs);
    let n = center_count(k);
    let sum = center_sum(k);
    let g = k[i];
    let out = f.glyphs@[i];
    assert(laid_out(out, g, p.tabular_nums, max_digit_advance(k), sum, n));
    let d = sum - n * center2(g);
    let q = round_div(d, 2 * n);
    lemma_round_div_close(d, 2 * n);
    assert(center2(out) == center2(g) + 2 * q);
    assert(n * center2(out) - sum == 2 * n * q - d) by (nonlinear_arith)
        requires
            center2(out) == center2(g) + 2 * q,
            d == sum - n * center2(g),
    ;
}

/// The lowest bottom covers the bottom of each of the first `k` glyphs.
proof fn lemma_max_bottom_covers(gs: Seq<GlyphImage>, k: int, lh: int, i: int)
    requires
        0 <= i < k,
    ensures
        max_bottom(gs, k, lh) >= gs[i].yoffset + img_h(gs[i]),
        max_bottom(gs, k, lh) >= lh,
    decreases k,
{
    if i < k - 1 {
        lemma_max_bottom_covers(gs, k - 1, lh, i);
    } else if k > 1 {
        lemma_max_bottom_covers(gs, k - 1, lh, 0);
    } else {
        assert(max_bottom(gs, 0, lh) == lh);
    }
}

/// Law: the line height reaches below every glyph bitmap and below the face's descent.
pub proof fn lemma_line_height_covers(rs: Seq<Rastered>, p: LayoutParams, opt: PackOptions, f: GeneratedFont, i: int)
    requires
        layout_spec(rs, p, opt, f),
        0 <= i < f.glyphs@.len(),
    ensures
        f.line_height >= f.glyphs@[i].yoffset + img_h(f.glyphs@[i]),
        f.line_height >= p.base - p.descent,
        f.line_height >= p.line_height,
{
    lemma_max_bottom_covers(f.glyphs@, f.glyphs@.len() as int, p.line_height as int, i);
}

/// Law: a face that has the character keeps it; the fallback faces are used only
/// for characters the primary face lacks (a `+` it has is never replaced for being ASCII).
pub proof fn lemma_primary_kept(ch: char, l: bool, c: bool, ascii_fallback: bool)
    ensures
        choose_for_char(ch, true, l, c, ascii_fallback) == (FontSlot::Primary, false),
        choose_for_char(' ', false, l, c, ascii_fallback) == (FontSlot::Primary, false),
        choose_for_char(ch, false, l, c, ascii_fallback).1 ==> ch != ' ',
{
}


/// Law: only the symbols `+ - − – — = * × ÷ ± ＋ －` are moved to the digits' centre; every
/// other glyph (a period, a letter, a digit) keeps the y offset it was drawn with.
pub proof fn lemma_only_symbols_move(rs: Seq<Rastered>, p: LayoutParams, opt: PackOptions, f: GeneratedFont, i: int)
    requires
        layout_spec(rs, p, opt, f),
        0 <= i < f.glyphs@.len(),
        ({
            let c = f.glyphs@[i].ch;
            c != '+' && c != '-' && c != '\u{2212}' && c != '\u{2013}' && c != '\u{2014}' && c != '='
                && c != '*' && c != '\u{00D7}' && c != '\u{00F7}' && c != '\u{00B1}' && c != '\u{FF0B}'
                && c != '\u{FF0D}'
        }),
    ensures
        f.glyphs@[i].yoffset == kept_glyphs(rs)[i].yoffset,
        f.glyphs@[i].ch == kept_glyphs(rs)[i].ch,
{
    let k = kept_glyphs(rs);
    assert(laid_out(f.glyphs@[i], k[i], p.tabular_nums, max_digit_advance(k), center_sum(k), center_count(k)));
}

} // verus!
