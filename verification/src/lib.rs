//! FntForge: bitmap fonts for Cocos2d-x. The character sets, glyph masks and
//! their effects' integer parts, glyph layout and atlas packing, the AngelCode
//! BMFont text, and the reading of Photoshop layer styles.

pub mod charset;
pub mod error;
pub mod fnt;
pub mod font;
pub mod hash;
pub mod import;
pub mod kerning;
pub mod layout;
pub mod mask;
pub mod order;
pub mod pack;
pub mod raster;
pub mod report;
pub mod style;
pub mod text;
