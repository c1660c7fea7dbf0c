//! A generated bitmap font: glyph metrics, atlas pages and reports.

use vstd::prelude::*;
use crate::raster::Image;

verus! {

/// One rendered glyph and where it sits in the atlas.
#[derive(Debug)]
pub struct GlyphImage {
    /// Code point of the glyph.
    pub id: u32,
    pub ch: char,
    /// The styled glyph bitmap.
    pub image: Image,
    pub xoffset: i32,
    pub yoffset: i32,
    pub xadvance: i32,
    /// Position and size in the atlas page.
    pub x: u32,
    pub y: u32,
    pub width: u32,
    pub height: u32,
    pub page: u32,
    /// Rendered from a fallback face.
    pub from_fallback: bool,
}

/// A bitmap font ready to be written out.
#[derive(Debug)]
pub struct GeneratedFont {
    pub face: String,
    /// Pixel size, rounded to a whole pixel.
    pub size: i32,
    pub line_height: i32,
    pub base: i32,
    pub padding: i32,
    pub spacing: i32,
    pub scale_w: u32,
    pub scale_h: u32,
    pub glyphs: Vec<GlyphImage>,
    pub pages: Vec<Image>,
    /// Kerning pairs `(first, second, amount)`.
    pub kernings: Vec<(u32, u32, i32)>,
    /// Characters no face could draw.
    pub missing: Vec<char>,
    /// Characters drawn from a fallback face.
    pub fallback_used: Vec<char>,
}

} // verus!
