//! AngelCode BMFont text (`.fnt`) output.

use vstd::prelude::*;
use crate::font::{GeneratedFont, GlyphImage};
use crate::order::{int_keys, stable_order, stable_order_of};
use crate::text::{
    char_from_u32, chars_to_string, dec, is_scalar_value, pad_right, push_chars, push_i64,
    push_i64_padded, push_str, push_u64, str_chars,
};

verus! {

/// The text of a `.fnt` file.
#[derive(Clone, Debug)]
pub struct BmFont {
    pub text: String,
}

/// A face name with its double quotes turned into single quotes.
pub open spec fn sanitize_face_spec(name: Seq<char>) -> Seq<char> {
    name.map_values(|c: char| if c == '"' { '\'' } else { c })
}

/// How a glyph's character is written in `letter="..."`: a double quote and a
/// line feed are escaped, and a code that is no character writes nothing.
pub open spec fn letter_spec(id: u32) -> Seq<char> {
    if is_scalar_value(id as int) {
        let c = id as char;
        if c == '"' {
            seq!['\\', '"']
        } else if c == '\n' {
            seq!['\\', 'n']
        } else {
            seq![c]
        }
    } else {
        Seq::empty()
    }
}

pub open spec fn info_line(font: GeneratedFont) -> Seq<char> {
    let p = dec(font.padding as int);
    let sp = dec(font.spacing as int);
    "info face=\""@ + sanitize_face_spec(font.face@) + "\" size="@ + dec(font.size as int)
        + " bold=0 italic=0 charset=\"\" unicode=1 stretchH=100 smooth=1 aa=1 padding="@ + p
        + seq![','] + p + seq![','] + p + seq![','] + p + " spacing="@ + sp + seq![','] + sp
        + " outline=0\n"@
}

pub open spec fn common_line(font: GeneratedFont) -> Seq<char> {
    "common lineHeight="@ + dec(font.line_height as int) + " base="@ + dec(font.base as int)
        + " scaleW="@ + dec(font.scale_w as int) + " scaleH="@ + dec(font.scale_h as int)
        + " pages="@ + dec(font.pages@.len() as int)
        + " packed=0 alphaChnl=0 redChnl=0 greenChnl=0 blueChnl=0\n"@
}

/// The image file of page `i` out of `n`: `stem.png` for a single page, else `stem_i.png`.
pub open spec fn page_file(stem: Seq<char>, n: int, i: int) -> Seq<char> {
    if n == 1 {
        stem + ".png"@
    } else {
        stem + seq!['_'] + dec(i) + ".png"@
    }
}

pub open spec fn page_line(stem: Seq<char>, n: int, i: int) -> Seq<char> {
    "page id="@ + dec(i) + " file=\""@ + page_file(stem, n, i) + "\"\n"@
}

/// The `page` lines for pages `0..k` out of `n`.
pub open spec fn page_lines(stem: Seq<char>, n: int, k: int) -> Seq<char>
    decreases k,
{
    if k <= 0 {
        Seq::empty()
    } else {
        page_lines(stem, n, k - 1) + page_line(stem, n, k - 1)
    }
}

pub open spec fn char_line(g: GlyphImage) -> Seq<char> {
    "char id="@ + pad_right(dec(g.id as int), 5) + " x="@ + pad_right(dec(g.x as int), 5) + " y="@
        + pad_right(dec(g.y as int), 5) + " width="@ + pad_right(dec(g.width as int), 5)
        + " height="@ + pad_right(dec(g.height as int), 5) + " xoffset="@ + pad_right(
        dec(g.xoffset as int),
        5,
    ) + " yoffset="@ + pad_right(dec(g.yoffset as int), 5) + " xadvance="@ + pad_right(
        dec(g.xadvance as int),
        5,
    ) + " page="@ + dec(g.page as int) + "  chnl=15 letter=\""@ + letter_spec(g.id) + "\"\n"@
}

/// The `char` lines of the first `k` glyphs of `order`.
pub open spec fn char_lines(glyphs: Seq<GlyphImage>, order: Seq<usize>, k: int) -> Seq<char>
    decreases k,
{
    if k <= 0 {
        Seq::empty()
    } else {
        char_lines(glyphs, order, k - 1) + char_line(glyphs[order[k - 1] as int])
    }
}

pub open spec fn kerning_line(k: (u32, u32, i32)) -> Seq<char> {
    "kerning first="@ + pad_right(dec(k.0 as int), 5) + " second="@ + pad_right(dec(k.1 as int), 5)
        + " amount="@ + dec(k.2 as int) + "\n"@
}

/// The `kerning` lines of the first `k` pairs.
pub open spec fn kerning_lines(ks: Seq<(u32, u32, i32)>, k: int) -> Seq<char>
    decreases k,
{
    if k <= 0 {
        Seq::empty()
    } else {
        kerning_lines(ks, k - 1) + kerning_line(ks[k - 1])
    }
}

/// Glyph ids as sort keys.
pub open spec fn id_keys(glyphs: Seq<GlyphImage>) -> Seq<int> {
    glyphs.map_values(|g: GlyphImage| g.id as int)
}

/// The glyphs in ascending id order; glyphs with equal ids keep their order.
pub open spec fn id_order(glyphs: Seq<GlyphImage>) -> Seq<usize> {
    stable_order_of(id_keys(glyphs))
}

/// The whole `.fnt` text of `font`, with page images named after `stem`.
pub open spec fn fnt_text(font: GeneratedFont, stem: Seq<char>) -> Seq<char> {
    let n = font.glyphs@.len() as int;
    let ks = font.kernings@;
    info_line(font) + common_line(font) + page_lines(stem, font.pages@.len() as int, font.pages@.len() as int)
        + "chars count="@ + dec(n) + seq!['\n'] + char_lines(font.glyphs@, id_order(font.glyphs@), n)
        + if ks.len() == 0 {
        Seq::empty()
    } else {
        "kernings count="@ + dec(ks.len() as int) + seq!['\n'] + kerning_lines(ks, ks.len() as int)
    }
}

/// A face name with `"` replaced by `'`.
fn sanitize_face(name: &str) -> (r: Vec<char>)
    ensures
        r@ == sanitize_face_spec(name@),
{
    let src = str_chars(name);
    let mut out: Vec<char> = Vec::new();
    let mut i: usize = 0;
    while i < src.len()
        invariant
            i <= src.len(),
            src@ == name@,
            out@ == sanitize_face_spec(src@.take(i as int)),
        decreases src.len() - i,
    {
        let c = src[i];
        out.push(if c == '"' { '\'' } else { c });
        assert(sanitize_face_spec(src@.take(i + 1)) =~= sanitize_face_spec(src@.take(i as int)).push(
            if c == '"' { '\'' } else { c },
        ));
        i = i + 1;
    }
    assert(src@.take(src.len() as int) =~= src@);
    out
}

/// How a glyph's code is written as a letter.
fn display_letter(id: u32) -> (r: Vec<char>)
    ensures
        r@ == letter_spec(id),
{
    let mut out: Vec<char> = Vec::new();
    match char_from_u32(id) {
        Some(c) => {
            if c == '"' {
                out.push('\\');
                out.push('"');
            } else if c == '\n' {
                out.push('\\');
                out.push('n');
            } else {
                out.push(c);
            }
        },
        None => {},
    }
    assert(out@ =~= letter_spec(id));
    out
}

fn info_line_text(font: &GeneratedFont) -> (r: Vec<char>)
    ensures
        r@ == info_line(*font),
{
    let mut o: Vec<char> = Vec::new();
    push_str(&mut o, "info face=\"");
    let face = sanitize_face(font.face.as_str());
    push_chars(&mut o, &face);
    push_str(&mut o, "\" size=");
    push_i64(&mut o, font.size as i64);
    push_str(&mut o, " bold=0 italic=0 charset=\"\" unicode=1 stretchH=100 smooth=1 aa=1 padding=");
    push_i64(&mut o, font.padding as i64);
    o.push(',');
    push_i64(&mut o, font.padding as i64);
    o.push(',');
    push_i64(&mut o, font.padding as i64);
    o.push(',');
    push_i64(&mut o, font.padding as i64);
    push_str(&mut o, " spacing=");
    push_i64(&mut o, font.spacing as i64);
    o.push(',');
    push_i64(&mut o, font.spacing as i64);
    push_str(&mut o, " outline=0\n");
    assert(o@ =~= info_line(*font));
    o
}

fn common_line_text(font: &GeneratedFont) -> (r: Vec<char>)
    ensures
        r@ == common_line(*font),
{
    let mut o: Vec<char> = Vec::new();
    push_str(&mut o, "common lineHeight=");
    push_i64(&mut o, font.line_height as i64);
    push_str(&mut o, " base=");
    push_i64(&mut o, font.base as i64);
    push_str(&mut o, " scaleW=");
    push_u64(&mut o, font.scale_w as u64);
    push_str(&mut o, " scaleH=");
    push_u64(&mut o, font.scale_h as u64);
    push_str(&mut o, " pages=");
    push_u64(&mut o, font.pages.len() as u64);
    push_str(&mut o, " packed=0 alphaChnl=0 redChnl=0 greenChnl=0 blueChnl=0\n");
    assert(o@ =~= common_line(*font));
    o
}

fn page_line_text(stem: &str, n: usize, i: usize) -> (r: Vec<char>)
    ensures
        r@ == page_line(stem@, n as int, i as int),
{
    let mut o: Vec<char> = Vec::new();
    push_str(&mut o, "page id=");
    push_u64(&mut o, i as u64);
    push_str(&mut o, " file=\"");
    push_str(&mut o, stem);
    if n == 1 {
        push_str(&mut o, ".png");
    } else {
        o.push('_');
        push_u64(&mut o, i as u64);
        push_str(&mut o, ".png");
    }
    push_str(&mut o, "\"\n");
    assert(o@ =~= page_line(stem@, n as int, i as int));
    o
}

fn char_line_text(g: &GlyphImage) -> (r: Vec<char>)
    ensures
        r@ == char_line(*g),
{
    let mut o: Vec<char> = Vec::new();
    push_str(&mut o, "char id=");
    push_i64_padded(&mut o, g.id as i64, 5);
    push_str(&mut o, " x=");
    push_i64_padded(&mut o, g.x as i64, 5);
    push_str(&mut o, " y=");
    push_i64_padded(&mut o, g.y as i64, 5);
    push_str(&mut o, " width=");
    push_i64_padded(&mut o, g.width as i64, 5);
    push_str(&mut o, " height=");
    push_i64_padded(&mut o, g.height as i64, 5);
    push_str(&mut o, " xoffset=");
    push_i64_padded(&mut o, g.xoffset as i64, 5);
    push_str(&mut o, " yoffset=");
    push_i64_padded(&mut o, g.yoffset as i64, 5);
    push_str(&mut o, " xadvance=");
    push_i64_padded(&mut o, g.xadvance as i64, 5);
    push_str(&mut o, " page=");
    push_u64(&mut o, g.page as u64);
    push_str(&mut o, "  chnl=15 letter=\"");
    let letter = display_letter(g.id);
    push_chars(&mut o, &letter);
    push_str(&mut o, "\"\n");
    assert(o@ =~= char_line(*g));
    o
}

fn kerning_line_text(k: (u32, u32, i32)) -> (r: Vec<char>)
    ensures
        r@ == kerning_line(k),
{
    let mut o: Vec<char> = Vec::new();
    push_str(&mut o, "kerning first=");
    push_i64_padded(&mut o, k.0 as i64, 5);
    push_str(&mut o, " second=");
    push_i64_padded(&mut o, k.1 as i64, 5);
    push_str(&mut o, " amount=");
    push_i64(&mut o, k.2 as i64);
    push_str(&mut o, "\n");
    assert(o@ =~= kerning_line(k));
    o
}

/// Writes the BMFont text of `font`; page images are named after `png_stem`.
pub fn write_fnt(font: &GeneratedFont, png_stem: &str) -> (r: BmFont)
    ensures
        r.text@ == fnt_text(*font, png_stem@),
{
    let mut s: Vec<char> = Vec::new();
    let info = info_line_text(font);
    push_chars(&mut s, &info);
    let common = common_line_text(font);
    push_chars(&mut s, &common);
    let n_pages = font.pages.len();
    let ghost head = s@;
    let mut i: usize = 0;
    while i < n_pages
        invariant
            n_pages == font.pages@.len(),
            i <= n_pages,
            s@ == head + page_lines(png_stem@, n_pages as int, i as int),
        decreases n_pages - i,
    {
        let line = page_line_text(png_stem, n_pages, i);
        push_chars(&mut s, &line);
        assert(s@ =~= head + page_lines(png_stem@, n_pages as int, i + 1));
        i = i + 1;
    }
    push_str(&mut s, "chars count=");
    push_u64(&mut s, font.glyphs.len() as u64);
    s.push('\n');
    let n = font.glyphs.len();
    let mut keys: Vec<i64> = Vec::new();
    let mut k: usize = 0;
    while k < n
        invariant
            n == font.glyphs@.len(),
            k <= n,
            keys@.len() == k,
            forall|j: int| 0 <= j < k ==> #[trigger] keys@[j] == font.glyphs@[j].id as int,
        decreases n - k,
    {
        keys.push(font.glyphs[k].id as i64);
        k = k + 1;
    }
    assert(int_keys(keys@) =~= id_keys(font.glyphs@));
    let order = stable_order(&keys);
    let ghost head2 = s@;
    let mut t: usize = 0;
    while t < n
        invariant
            n == font.glyphs@.len(),
            order@ == id_order(font.glyphs@),
            order@.len() == n,
            forall|j: int| 0 <= j < n ==> #[trigger] order@[j] < n,
            t <= n,
            s@ == head2 + char_lines(font.glyphs@, order@, t as int),
        decreases n - t,
    {
        assert(order@[t as int] < n);
        let line = char_line_text(&font.glyphs[order[t]]);
        push_chars(&mut s, &line);
        assert(s@ =~= head2 + char_lines(font.glyphs@, order@, t + 1));
        t = t + 1;
    }
    let nk = font.kernings.len();
    if nk > 0 {
        push_str(&mut s, "kernings count=");
        push_u64(&mut s, nk as u64);
        s.push('\n');
        let ghost head3 = s@;
        let mut j: usize = 0;
        while j < nk
            invariant
                nk == font.kernings@.len(),
                j <= nk,
                s@ == head3 + kerning_lines(font.kernings@, j as int),
            decreases nk - j,
        {
            let line = kerning_line_text(font.kernings[j]);
            push_chars(&mut s, &line);
            assert(s@ =~= head3 + kerning_lines(font.kernings@, j + 1));
            j = j + 1;
        }
    }
    assert(s@ =~= fnt_text(*font, png_stem@));
    BmFont { text: chars_to_string(&s) }
}

/// The `kerning` lines of the first `k` pairs depend on those pairs alone.
proof fn lemma_kerning_lines_prefix(a: Seq<(u32, u32, i32)>, b: Seq<(u32, u32, i32)>, k: int)
    requires
        0 <= k <= a.len(),
        k <= b.len(),
        forall|i: int| 0 <= i < k ==> a[i] == b[i],
    ensures
        kerning_lines(a, k) == kerning_lines(b, k),
    decreases k,
{
    if k > 0 {
        lemma_kerning_lines_prefix(a, b, k - 1);
        assert(a[k - 1] == b[k - 1]);
    }
}

/// The `kerning` lines of the first `n` pairs: those of the pairs before `j`, then the
/// line of pair `j`, then those of the pairs after it.
proof fn lemma_kerning_lines_split(ks: Seq<(u32, u32, i32)>, n: int, j: int)
    requires
        0 <= j < n <= ks.len(),
    ensures
        kerning_lines(ks, n) == kerning_lines(ks, j) + kerning_line(ks[j]) + kerning_lines(
            ks.subrange(j + 1, n),
            n - j - 1,
        ),
    decreases n,
{
    let later = ks.subrange(j + 1, n);
    if j == n - 1 {
        assert(kerning_lines(later, 0) == Seq::<char>::empty());
        assert(kerning_lines(ks, n) == kerning_lines(ks, j) + kerning_line(ks[j]));
        assert(kerning_lines(ks, j) + kerning_line(ks[j]) + Seq::<char>::empty() =~= kerning_lines(ks, j)
            + kerning_line(ks[j]));
    } else {
        lemma_kerning_lines_split(ks, n - 1, j);
        let shorter = ks.subrange(j + 1, n - 1);
        lemma_kerning_lines_prefix(later, shorter, n - j - 2);
        assert(later[n - j - 2] == ks[n - 1]);
        assert(kerning_lines(later, n - j - 1) == kerning_lines(later, n - j - 2) + kerning_line(ks[n - 1]));
        assert(kerning_lines(ks, n) == kerning_lines(ks, n - 1) + kerning_line(ks[n - 1]));
        assert(kerning_lines(ks, j) + kerning_line(ks[j]) + kerning_lines(shorter, n - j - 2) + kerning_line(
            ks[n - 1],
        ) =~= kerning_lines(ks, j) + kerning_line(ks[j]) + (kerning_lines(shorter, n - j - 2)
            + kerning_line(ks[n - 1])));
    }
}

/// Law: a `.fnt` text ends with one `kerning` line per kerning pair, in the order of
/// the pairs: from the line of pair `j` on, it is that line (naming `first`, `second`
/// and `amount` of pair `j`) followed by the lines of the pairs after it.
pub proof fn lemma_kerning_section(font: GeneratedFont, stem: Seq<char>, j: int)
    requires
        0 <= j < font.kernings@.len(),
    ensures
        ({
            let ks = font.kernings@;
            let n = ks.len() as int;
            let text = fnt_text(font, stem);
            let tail = kerning_line(ks[j]) + kerning_lines(ks.subrange(j + 1, n), n - j - 1);
            &&& tail.len() <= text.len()
            &&& text.subrange(text.len() - tail.len(), text.len() as int) == tail
        }),
{
    let ks = font.kernings@;
    let n = ks.len() as int;
    let text = fnt_text(font, stem);
    let tail = kerning_line(ks[j]) + kerning_lines(ks.subrange(j + 1, n), n - j - 1);
    lemma_kerning_lines_split(ks, n, j);
    let head = text.subrange(0, text.len() - kerning_lines(ks, n).len());
    assert(text == head + kerning_lines(ks, n));
    assert(text =~= (head + kerning_lines(ks, j)) + tail);
    assert(text.subrange(text.len() - tail.len(), text.len() as int) =~= tail);
}

} // verus!
