//! Decoding and encoding of Truevision TGA raster images held in memory.
//!
//! A TGA file is an 18-byte header, an optional palette block and the
//! pixel data, which is stored as it is or in run-length packets.
//! [`Tga::new`] decodes the bytes of such a file into an image that starts
//! at its top-left corner; [`Tga::save`] encodes an image as an
//! uncompressed file. Every function says in its contract what it returns
//! for every input, and the modules state the laws that hold between them.

pub mod bytes;
pub mod color_map;
pub mod decode;
pub mod error;
pub mod format;
pub mod header;
pub mod info;
pub mod orient;
pub mod tga;

pub use crate::color_map::ColorMap;
pub use crate::decode::decode_data;
pub use crate::error::Error;
pub use crate::format::bits_to_bytes;
pub use crate::format::TgaImageType;
pub use crate::format::TgaPixelFormat;
pub use crate::header::check_dimensions;
pub use crate::header::TgaHeader;
pub use crate::info::TgaInfo;
pub use crate::tga::Tga;
