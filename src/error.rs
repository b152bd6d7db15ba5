//! Errors reported while rendering a document.
use vstd::prelude::*;

verus! {

#[derive(Clone, Debug, PartialEq, Eq)]
pub enum RenderError {
    /// A text format was asked of a code block whose language is not `text`.
    NotText,
    /// A code block option that its language does not accept.
    UnknownOption(String),
    /// An image wider than the printer's graphics line.
    ImageTooWide(u32),
    /// An image with no pixels.
    EmptyImage,
    /// A bit-image width that does not fit the command's 16-bit field.
    BitImageTooWide(usize),
    /// Pixel data whose length does not match the image dimensions.
    BadPixelData,
    /// A pixel left outside the palette after dithering.
    UnexpectedPixel,
    /// A base64 payload that does not decode.
    Base64,
    /// Image bytes that the decoder rejected.
    ImageDecode,
    /// A payload that the QR encoder rejected.
    QrCode,
    /// A payload that the barcode encoder rejected.
    Barcode,
    /// A barcode payload longer than the encoder is given.
    BarcodeTooLong,
    /// An event that closes a construct that is not open, or opens a code
    /// block inside another.
    Unbalanced,
    /// Nesting whose indent passes the indent limit.
    IndentTooDeep,
    /// A numbered list whose item number passes the largest `u64`.
    ListNumberOverflow,
}

} // verus!
