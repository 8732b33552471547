//! A library for editing palette-indexed raster images: an in-memory model
//! of palette, transparency table and pixel grid with its consistency
//! invariants, the sub-byte bit-depth unpacker, and the PNG load/save
//! adapters around them.

pub mod codec;
pub mod color;
pub mod image;
pub mod unpack;

pub use codec::{image_from_parts, DecodedParts, ImgError};
pub use color::Rgb;
pub use image::Image;
pub use unpack::unpack;
