//! What a decoded image is, apart from its pixels: its dimensions and
//! its pixel format.

use vstd::prelude::*;
use crate::error::Error;
use crate::format::TgaPixelFormat;
use crate::header::TgaHeader;

verus! {

/// Dimensions and pixel format of a decoded image.
#[derive(Clone, Copy, PartialEq, Eq, Debug, Structural)]
pub struct TgaInfo {
    pub width: u16,
    pub height: u16,
    pub pixel_format: TgaPixelFormat,
}

impl TgaInfo {
    /// The description of an image without pixels.
    pub open spec fn spec_new() -> TgaInfo {
        TgaInfo { width: 0, height: 0, pixel_format: TgaPixelFormat::ARGB32 }
    }

    /// The description that a header gives of its image, where the header
    /// announces a pixel format.
    pub open spec fn spec_from_tga_header(header: TgaHeader) -> Result<TgaInfo, Error> {
        match header.spec_pixel_format() {
            Err(e) => Err(e),
            Ok(format) => Ok(
                TgaInfo {
                    width: header.image_width,
                    height: header.image_height,
                    pixel_format: format,
                },
            ),
        }
    }

    /// The description of an image without pixels: no width, no height, and
    /// the widest pixel format.
    pub fn new() -> (info: Self)
        ensures
            info == Self::spec_new(),
    {
        TgaInfo { width: 0, height: 0, pixel_format: TgaPixelFormat::ARGB32 }
    }

    /// Takes dimensions and pixel format from a header. Fails exactly when
    /// the header announces no pixel format, with the error that
    /// `get_pixel_format` gives.
    pub fn from_tga_header(header: &TgaHeader) -> (res: Result<Self, Error>)
        ensures
            res == Self::spec_from_tga_header(*header),
    {
        match header.get_pixel_format() {
            Err(e) => Err(e),
            Ok(format) => Ok(
                TgaInfo {
                    width: header.image_width,
                    height: header.image_height,
                    pixel_format: format,
                },
            ),
        }
    }
}

impl Default for TgaInfo {
    fn default() -> (info: Self)
        ensures
            info == TgaInfo::spec_new(),
    {
        TgaInfo::new()
    }
}

} // verus!
