//! Kerning pairs read from a font's `kern` table with ttf-parser, in font units.

use vstd::prelude::*;

verus! {

/// The units per em of the face (index 0) in the font file `font`; none when the file
/// does not parse as a face.
pub uninterp spec fn units_per_em_of(font: Seq<u8>) -> Option<u16>;

/// The number of subtables the `kern` table of the face in `font` declares; none when the
/// file does not parse as a face or the face has no `kern` table.
pub uninterp spec fn kern_subtable_count(font: Seq<u8>) -> Option<u32>;

/// The glyph the face in `font` maps `ch` to; none when the file does not parse as a face
/// or the face maps no glyph to `ch`.
pub uninterp spec fn glyph_id_of(font: Seq<u8>, ch: char) -> Option<u16>;

/// Subtable `i` of the `kern` table of the face in `font`, as the subtables are read in
/// turn: none when there is no such subtable to read (or no face, or no `kern` table);
/// otherwise the kerning value it gives the glyph pair `(left, right)`, if any.
pub uninterp spec fn subtable_kerning(font: Seq<u8>, i: u32, left: u16, right: u16) -> Option<Option<i16>>;

/// `Face::parse(font, 0)` and `Face::units_per_em`.
#[verifier::external_body]
fn face_units_per_em(font: &[u8]) -> (r: Option<u16>)
    ensures
        r == units_per_em_of(font@),
{
    match ttf_parser::Face::parse(font, 0) {
        Ok(face) => Some(face.units_per_em()),
        Err(_) => None,
    }
}

/// `Face::parse(font, 0)`, `Face::tables().kern` and `Subtables::len`.
#[verifier::external_body]
fn face_kern_subtables(font: &[u8]) -> (r: Option<u32>)
    ensures
        r == kern_subtable_count(font@),
{
    let face = ttf_parser::Face::parse(font, 0).ok()?;
    Some(face.tables().kern?.subtables.len())
}

/// `Face::parse(font, 0)` and `Face::glyph_index`.
#[verifier::external_body]
fn face_glyph_id(font: &[u8], ch: char) -> (r: Option<u16>)
    ensures
        r == glyph_id_of(font@, ch),
{
    let face = ttf_parser::Face::parse(font, 0).ok()?;
    face.glyph_index(ch).map(|g| g.0)
}

/// `Face::parse(font, 0)`, the `i`-th subtable its `kern` table yields, and
/// `Subtable::glyphs_kerning` for the pair.
#[verifier::external_body]
fn face_subtable_kerning(font: &[u8], i: u32, left: u16, right: u16) -> (r: Option<Option<i16>>)
    ensures
        r == subtable_kerning(font@, i, left, right),
{
    let face = ttf_parser::Face::parse(font, 0).ok()?;
    let st = face.tables().kern?.subtables.into_iter().nth(i as usize)?;
    Some(st.glyphs_kerning(ttf_parser::GlyphId(left), ttf_parser::GlyphId(right)))
}

/// The kerning of a glyph pair from subtable `i` on, before subtable `n`: the value of the
/// first subtable that has one; the search stops where the subtables run out.
pub open spec fn first_kerning_from(font: Seq<u8>, left: u16, right: u16, i: int, n: int) -> Option<i16>
    decreases n - i,
{
    if i < 0 || i >= n {
        None
    } else {
        match subtable_kerning(font, i as u32, left, right) {
            None => None,
            Some(Some(v)) => Some(v),
            Some(None) => first_kerning_from(font, left, right, i + 1, n),
        }
    }
}

/// The kerning of the glyph pair `(left, right)`: the value of the first subtable of the
/// `kern` table that has one.
pub open spec fn pair_kerning(font: Seq<u8>, left: u16, right: u16) -> Option<i16> {
    match kern_subtable_count(font) {
        Some(n) => first_kerning_from(font, left, right, 0, n as int),
        None => None,
    }
}

/// The glyphs `(id, ch)` whose character the face maps, with the glyph it maps it to, in order.
pub open spec fn kern_glyph_ids(font: Seq<u8>, gs: Seq<(u32, char)>) -> Seq<(u32, u16)>
    decreases gs.len(),
{
    if gs.len() == 0 {
        Seq::empty()
    } else {
        let rest = kern_glyph_ids(font, gs.drop_last());
        match glyph_id_of(font, gs.last().1) {
            Some(g) => rest.push((gs.last().0, g)),
            None => rest,
        }
    }
}

/// The kerned pairs `(a.0, b.0, v)` with `a` first and `b` among the first `k` of `ids`.
pub open spec fn kern_row(font: Seq<u8>, a: (u32, u16), ids: Seq<(u32, u16)>, k: int) -> Seq<(u32, u32, i16)>
    decreases k,
{
    if k <= 0 {
        Seq::empty()
    } else {
        let rest = kern_row(font, a, ids, k - 1);
        match pair_kerning(font, a.1, ids[k - 1].1) {
            Some(v) => rest.push((a.0, ids[k - 1].0, v)),
            None => rest,
        }
    }
}

/// The kerned pairs whose first glyph is among the first `k` of `ids`, row by row.
pub open spec fn kern_rows(font: Seq<u8>, ids: Seq<(u32, u16)>, k: int) -> Seq<(u32, u32, i16)>
    decreases k,
{
    if k <= 0 {
        Seq::empty()
    } else {
        kern_rows(font, ids, k - 1) + kern_row(font, ids[k - 1], ids, ids.len() as int)
    }
}

/// The kerning of a font for some glyphs: none when the font does not parse, has no `kern`
/// table or has zero units per em; otherwise its units per em and, for every ordered pair
/// of glyphs the face maps (in the order of the glyphs, first glyph outer), the value of
/// the first subtable that kerns the pair.
pub open spec fn kerning_of(font: Seq<u8>, gs: Seq<(u32, char)>) -> Option<(u16, Seq<(u32, u32, i16)>)> {
    match (units_per_em_of(font), kern_subtable_count(font)) {
        (Some(u), Some(n)) => if u > 0 {
            let ids = kern_glyph_ids(font, gs);
            Some((u, kern_rows(font, ids, ids.len() as int)))
        } else {
            None
        },
        _ => None,
    }
}

/// The kerning of the pair `(left, right)`, reading the `n` subtables in turn.
fn pair_kerning_exec(font: &[u8], n: u32, left: u16, right: u16) -> (r: Option<i16>)
    requires
        kern_subtable_count(font@) == Some(n),
    ensures
        r == pair_kerning(font@, left, right),
{
    let mut i: u32 = 0;
    while i < n
        invariant
            i <= n,
            kern_subtable_count(font@) == Some(n),
            first_kerning_from(font@, left, right, i as int, n as int) == pair_kerning(font@, left, right),
        decreases n - i,
    {
        match face_subtable_kerning(font, i, left, right) {
            None => {
                return None;
            },
            Some(Some(v)) => {
                return Some(v);
            },
            Some(None) => {},
        }
        i = i + 1;
    }
    None
}

/// The kerning pairs of a font for some glyphs `(id, ch)`, in font units (see `kerning_of`).
pub fn kerning_pairs(font_bytes: &[u8], glyphs: &[(u32, char)]) -> (r: Option<(u16, Vec<(u32, u32, i16)>)>)
    ensures
        r is None <==> kerning_of(font_bytes@, glyphs@) is None,
        r matches Some((u, v)) ==> kerning_of(font_bytes@, glyphs@) == Some((u, v@)),
{
    let units = match face_units_per_em(font_bytes) {
        Some(u) => u,
        None => {
            return None;
        },
    };
    let n = match face_kern_subtables(font_bytes) {
        Some(n) => n,
        None => {
            return None;
        },
    };
    if units == 0 {
        return None;
    }
    let ghost font = font_bytes@;
    let mut ids: Vec<(u32, u16)> = Vec::new();
    let mut k: usize = 0;
    while k < glyphs.len()
        invariant
            font == font_bytes@,
            k <= glyphs@.len(),
            ids@ == kern_glyph_ids(font, glyphs@.take(k as int)),
        decreases glyphs.len() - k,
    {
        let (id, ch) = glyphs[k];
        assert(glyphs@.take(k + 1).drop_last() =~= glyphs@.take(k as int));
        assert(glyphs@.take(k + 1).last() == (id, ch));
        match face_glyph_id(font_bytes, ch) {
            Some(g) => {
                ids.push((id, g));
            },
            None => {},
        }
        k = k + 1;
    }
    assert(glyphs@.take(glyphs@.len() as int) =~= glyphs@);
    let mut out: Vec<(u32, u32, i16)> = Vec::new();
    let mut i: usize = 0;
    while i < ids.len()
        invariant
            font == font_bytes@,
            kern_subtable_count(font) == Some(n),
            i <= ids@.len(),
            out@ == kern_rows(font, ids@, i as int),
        decreases ids.len() - i,
    {
        let a = ids[i];
        let mut j: usize = 0;
        while j < ids.len()
            invariant
                font == font_bytes@,
                kern_subtable_count(font) == Some(n),
                i < ids@.len(),
                j <= ids@.len(),
                a == ids@[i as int],
                out@ == kern_rows(font, ids@, i as int) + kern_row(font, a, ids@, j as int),
            decreases ids.len() - j,
        {
            let b = ids[j];
            match pair_kerning_exec(font_bytes, n, a.1, b.1) {
                Some(v) => {
                    out.push((a.0, b.0, v));
                    assert(kern_row(font, a, ids@, j + 1) == kern_row(font, a, ids@, j as int).push((a.0, b.0, v)));
                },
                None => {},
            }
            j = j + 1;
        }
        i = i + 1;
    }
    Some((units, out))
}

} // verus!
