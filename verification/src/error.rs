//! The errors of font generation.

use vstd::prelude::*;

verus! {

/// `std::io::Error`, carried by `Error::Io`.
#[verifier::external_type_specification]
#[verifier::external_body]
pub struct ExIoError(std::io::Error);

/// `image::ImageError`, carried by `Error::Image`.
#[verifier::external_type_specification]
#[verifier::external_body]
pub struct ExImageError(image::ImageError);

/// Why a font could not be generated.
#[derive(Debug)]
pub enum Error {
    /// The font file could not be parsed.
    Font(String),
    /// There was nothing to pack.
    Empty,
    /// A glyph does not fit in an atlas page of the given side.
    AtlasTooSmall(u32),
    /// Reading or writing a file failed.
    Io(std::io::Error),
    /// Encoding or decoding an image failed.
    Image(image::ImageError),
}

} // verus!
