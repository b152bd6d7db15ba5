//! Rendering of document text and graphics into the command stream of a
//! two-colour impact receipt printer.
use vstd::prelude::*;

pub mod codeblock;
pub mod document;
pub mod error;
pub mod format;
pub mod graphics;
pub mod images;
pub mod render;
pub mod strike;

pub use codeblock::{CodeBlockConfig, FormatInfo};
pub use document::{DocEvent, Document};
pub use error::RenderError;
pub use format::{Format, FormatFlags, Justification, INDENT_LIMIT};
pub use images::{barcode_image, bitmap_image, qr_image, write_bitmap, write_code128, write_qrcode};
pub use render::{bit_image_prologue, strikethrough_char_map, Renderer};
pub use strike::{decode_image, Rgb, RgbImage, Strike, StrikeColors, StrikeImage};

verus! {

} // verus!
