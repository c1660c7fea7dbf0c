# FntForge

A bitmap-font generator for Cocos2d-x Lua: it draws styled glyphs, packs them
into atlas pages and writes AngelCode BMFont (`.fnt` + PNG) files, and it can read
layer styles from Photoshop `.asl` files and layer names from PSDs.

The library under `src/` is written in Verus and proved against its contracts:

- `charset`: character-set presets (among them the GB2312 level-1 hanzi) and extraction (first-seen order, no repeats,
  always a space), and the sorted set of characters to draw.
- `mask`: coverage masks — padding and shifting, inversion, box blur and its
  three-pass softening, disc dilation and erosion.
- `pack`: the row packer that places glyph cells on atlas pages.
- `layout`: choosing the face for a character, what to do after drawing it, and
  assembling the font — tabular digits, symbols centred on the digits, line
  height, packing and the atlas pages.
- `kerning`: the kerning pairs of a font's `kern` table, in font units, read
  with ttf-parser.
- `fnt`, `report`, `hash`: the BMFont text, the missing-glyph report and Lua
  snippet, and the font fingerprint of project files.
- `import`: reading style keys, colours and sizes from layer-style bytes, and
  layer names from PSDs.
- `raster`, `order`, `text`, `style`, `font`, `error`: images of the `image`
  crate seen through their pixels, stable ordering, text building, colours,
  and the shared types.

`app/` is the `fntforge export` command line: reading files, rasterizing glyphs
with fontdue, the floating-point layer effects, project files, and kerning
scaled to pixels.
