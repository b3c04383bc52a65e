//! Input/output decisions: the error type shared by clipboard and file
//! operations, and the checks made before an image is handed to the encoder.

use vstd::prelude::*;
use crate::model::RawImage;

verus! {

/// Errors of the clipboard and file operations.
#[derive(Debug)]
pub enum IoError {
    ClipboardEmpty,
    ClipboardError(String),
    FileError(String),
}

/// The user-facing text of an error.
pub open spec fn io_error_text(e: IoError) -> Seq<char> {
    match e {
        IoError::ClipboardEmpty => "presse-papiers vide ou sans image"@,
        IoError::ClipboardError(m) => "erreur presse-papiers : "@ + m@,
        IoError::FileError(m) => "erreur fichier : "@ + m@,
    }
}

impl IoError {
    /// The user-facing text of the error.
    pub fn message(&self) -> (s: String)
        ensures
            s@ == io_error_text(*self),
    {
        match self {
            IoError::ClipboardEmpty => String::from_str("presse-papiers vide ou sans image"),
            IoError::ClipboardError(m) => String::from_str("erreur presse-papiers : ").concat(
                m.as_str(),
            ),
            IoError::FileError(m) => String::from_str("erreur fichier : ").concat(m.as_str()),
        }
    }
}

/// An RGBA8 image buffer of the `image` crate (`image::RgbaImage`), ready
/// for encoding.
#[verifier::external_body]
pub struct RgbaBuffer {
    pub image: image::RgbaImage,
}

/// Width, height and bytes of an RGBA8 image buffer.
pub uninterp spec fn rgba_buffer_view(b: RgbaBuffer) -> (u32, u32, Seq<u8>);

/// Calls `image::RgbaImage::from_raw`. Its source accepts the buffer exactly
/// when neither `4 * width` nor `4 * width * height` overflows `usize` and
/// the buffer holds at least `4 * width * height` bytes, and then keeps the
/// buffer and the size as they are.
#[verifier::external_body]
fn rgba_buffer_from_raw(width: u32, height: u32, pixels: Vec<u8>) -> (r: Option<RgbaBuffer>)
    ensures
        r is Some <==> (width * 4 <= usize::MAX && width * height * 4 <= usize::MAX && width * height
            * 4 <= pixels@.len()),
        r matches Some(b) ==> rgba_buffer_view(b) == (width, height, pixels@),
{
    match image::RgbaImage::from_raw(width, height, pixels) {
        Some(image) => Some(RgbaBuffer { image }),
        None => None,
    }
}

/// The message of the error given for an image whose buffer does not
/// match its size.
pub open spec fn mismatch_text() -> Seq<char> {
    "dimensions incohérentes avec le buffer de pixels"@
}

/// Wraps an image in the encoder's RGBA8 buffer type, ready to be written
/// to a file: a `FileError` when the pixel buffer is too short for the
/// stated size.
pub fn prepare_export(image: &RawImage) -> (r: Result<RgbaBuffer, IoError>)
    ensures
        r is Ok <==> (image.width * 4 <= usize::MAX && image.width * image.height * 4 <= usize::MAX
            && image.width * image.height * 4 <= image.pixels@.len()),
        r matches Ok(b) ==> rgba_buffer_view(b) == (image.width, image.height, image.pixels@),
        r matches Err(e) ==> e matches IoError::FileError(m) && m@ == mismatch_text(),
{
    let pixels = vstd::slice::slice_to_vec(image.pixels.as_slice());
    match rgba_buffer_from_raw(image.width, image.height, pixels) {
        Some(buffer) => Ok(buffer),
        None => Err(IoError::FileError(String::from_str("dimensions incohérentes avec le buffer de pixels"))),
    }
}

} // verus!
