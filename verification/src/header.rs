//! The fixed 18-byte header: its layout on the wire, the checks a header
//! must pass, and the pixel format it announces.

use vstd::prelude::*;
use crate::error::Error;
use crate::format::TgaImageType;
use crate::format::TgaPixelFormat;

verus! {

/// Length in bytes of the header on the wire.
pub const HEADER_SIZE: usize = 18;

/// Largest width or height an image can have.
pub const TGA_MAX_IMAGE_DIMENSIONS: u32 = 65535;

/// The header fields, in wire order.
#[derive(Clone, Copy, PartialEq, Eq, Debug, Structural)]
pub struct TgaHeader {
    pub id_length: u8,
    pub map_type: u8,
    pub image_type: u8,
    // Color map specification
    pub map_first_entry: u16,
    pub map_length: u16,
    pub map_entry_size: u8,
    // Image specification
    pub image_x_origin: u16,
    pub image_y_origin: u16,
    pub image_width: u16,
    pub image_height: u16,
    pub pixel_depth: u8,
    pub image_descripter: u8,
}

/// The 16-bit value whose little-endian bytes are `lo`, `hi`.
pub open spec fn spec_le16(lo: u8, hi: u8) -> u16 {
    (lo + 256 * hi) as u16
}

/// Whether a width and a height are outside what an image may have: either
/// is zero or exceeds `TGA_MAX_IMAGE_DIMENSIONS`.
pub open spec fn spec_check_dimensions(width: u32, height: u32) -> bool {
    width == 0 || width > TGA_MAX_IMAGE_DIMENSIONS || height == 0 || height
        > TGA_MAX_IMAGE_DIMENSIONS
}

/// Tests a width and a height against the limits of the format. The answer
/// is `true` when the dimensions are NOT acceptable: one of them is zero or
/// larger than `TGA_MAX_IMAGE_DIMENSIONS`.
pub fn check_dimensions(width: u32, height: u32) -> (invalid: bool)
    ensures
        invalid == spec_check_dimensions(width, height),
{
    width == 0 || width > TGA_MAX_IMAGE_DIMENSIONS || height == 0 || height
        > TGA_MAX_IMAGE_DIMENSIONS
}

fn le16(lo: u8, hi: u8) -> (v: u16)
    ensures
        v == spec_le16(lo, hi),
{
    lo as u16 + 256 * (hi as u16)
}

impl TgaHeader {
    /// The header in which every field is zero.
    pub open spec fn spec_new() -> TgaHeader {
        TgaHeader {
            id_length: 0,
            map_type: 0,
            image_type: 0,
            map_first_entry: 0,
            map_length: 0,
            map_entry_size: 0,
            image_x_origin: 0,
            image_y_origin: 0,
            image_width: 0,
            image_height: 0,
            pixel_depth: 0,
            image_descripter: 0,
        }
    }

    /// The header whose wire form is the first 18 bytes of `file`. Every
    /// two-byte field is little-endian.
    pub open spec fn spec_parse(file: Seq<u8>) -> TgaHeader
        recommends
            file.len() >= HEADER_SIZE,
    {
        TgaHeader {
            id_length: file[0],
            map_type: file[1],
            image_type: file[2],
            map_first_entry: spec_le16(file[3], file[4]),
            map_length: spec_le16(file[5], file[6]),
            map_entry_size: file[7],
            image_x_origin: spec_le16(file[8], file[9]),
            image_y_origin: spec_le16(file[10], file[11]),
            image_width: spec_le16(file[12], file[13]),
            image_height: spec_le16(file[14], file[15]),
            pixel_depth: file[16],
            image_descripter: file[17],
        }
    }

    /// The kind of image that the image-type byte names.
    pub open spec fn spec_image_type(self) -> Result<TgaImageType, Error> {
        if self.image_type == 0 {
            Err(Error::NoData)
        } else if self.image_type == 1 {
            Ok(TgaImageType::ColorMapped)
        } else if self.image_type == 2 {
            Ok(TgaImageType::TrueColor)
        } else if self.image_type == 3 {
            Ok(TgaImageType::GrayScale)
        } else if self.image_type == 9 {
            Ok(TgaImageType::RLEColorMapped)
        } else if self.image_type == 10 {
            Ok(TgaImageType::RLETrueColor)
        } else if self.image_type == 11 {
            Ok(TgaImageType::RLEGrayScale)
        } else {
            Err(Error::UnsupportedImageType)
        }
    }

    /// The pixel format that the header announces. A color-mapped image
    /// takes it from the size of a palette entry and must index with 8
    /// bits; the other kinds take it from the pixel depth. A header whose
    /// image type is not one of the six kinds with data has no format and
    /// yields `NoData`.
    pub open spec fn spec_pixel_format(self) -> Result<TgaPixelFormat, Error> {
        match self.spec_image_type() {
            Err(_) => Err(Error::NoData),
            Ok(kind) => if kind.spec_is_color_mapped() {
                if self.pixel_depth != 8 {
                    Err(Error::IllegalHeader)
                } else if self.map_entry_size == 15 || self.map_entry_size == 16 {
                    Ok(TgaPixelFormat::RGB555)
                } else if self.map_entry_size == 24 {
                    Ok(TgaPixelFormat::RGB24)
                } else if self.map_entry_size == 32 {
                    Ok(TgaPixelFormat::ARGB32)
                } else {
                    Err(Error::UnsupportedPixelFormat)
                }
            } else if kind == TgaImageType::TrueColor || kind == TgaImageType::RLETrueColor {
                if self.pixel_depth == 16 {
                    Ok(TgaPixelFormat::RGB555)
                } else if self.pixel_depth == 24 {
                    Ok(TgaPixelFormat::RGB24)
                } else if self.pixel_depth == 32 {
                    Ok(TgaPixelFormat::ARGB32)
                } else {
                    Err(Error::UnsupportedPixelFormat)
                }
            } else {
                if self.pixel_depth == 8 {
                    Ok(TgaPixelFormat::BW8)
                } else if self.pixel_depth == 16 {
                    Ok(TgaPixelFormat::BW16)
                } else {
                    Err(Error::UnsupportedPixelFormat)
                }
            },
        }
    }

    /// Bytes per pixel of the format that the header announces.
    pub open spec fn spec_pixel_size(self) -> Result<u32, Error> {
        match self.spec_pixel_format() {
            Err(e) => Err(e),
            Ok(format) => Ok(format.spec_bytes_per_pixel() as u32),
        }
    }

    /// The checks a parsed header must pass, in the order in which they are
    /// made; the first that fails names the error.
    pub open spec fn spec_validate(self) -> Result<(), Error> {
        if self.map_type > 1 {
            Err(Error::UnsupportedColorMapType)
        } else if self.image_type == 0 {
            Err(Error::NoData)
        } else if self.spec_image_type() is Err {
            Err(Error::UnsupportedImageType)
        } else if spec_check_dimensions(self.image_width as u32, self.image_height as u32) {
            Err(Error::InvalidImageDimensions)
        } else {
            match self.spec_pixel_format() {
                Err(e) => Err(e),
                Ok(_) => Ok(()),
            }
        }
    }

    /// Whether the header passes every check.
    pub open spec fn spec_valid(self) -> bool {
        self.spec_validate() is Ok
    }

    /// What parsing the start of `file` gives: `FileCannotRead` when fewer
    /// than 18 bytes are there, else the error of the first failed check,
    /// else the header.
    pub open spec fn spec_from_file(file: Seq<u8>) -> Result<TgaHeader, Error> {
        if file.len() < HEADER_SIZE {
            Err(Error::FileCannotRead)
        } else {
            match Self::spec_parse(file).spec_validate() {
                Err(e) => Err(e),
                Ok(_) => Ok(Self::spec_parse(file)),
            }
        }
    }

    /// A header with every field zero.
    pub fn new() -> (header: Self)
        ensures
            header == Self::spec_new(),
    {
        TgaHeader {
            id_length: 0,
            map_type: 0,
            image_type: 0,
            map_first_entry: 0,
            map_length: 0,
            map_entry_size: 0,
            image_x_origin: 0,
            image_y_origin: 0,
            image_width: 0,
            image_height: 0,
            pixel_depth: 0,
            image_descripter: 0,
        }
    }

    /// Parses and validates the header at the start of `file`, the bytes of
    /// a TGA file. Only the first 18 bytes are looked at.
    pub fn from_file(file: &[u8]) -> (res: Result<Self, Error>)
        ensures
            res == Self::spec_from_file(file@),
    {
        if file.len() < HEADER_SIZE {
            return Err(Error::FileCannotRead);
        }
        let header = TgaHeader {
            id_length: file[0],
            map_type: file[1],
            image_type: file[2],
            map_first_entry: le16(file[3], file[4]),
            map_length: le16(file[5], file[6]),
            map_entry_size: file[7],
            image_x_origin: le16(file[8], file[9]),
            image_y_origin: le16(file[10], file[11]),
            image_width: le16(file[12], file[13]),
            image_height: le16(file[14], file[15]),
            pixel_depth: file[16],
            image_descripter: file[17],
        };
        if header.map_type > 1 {
            return Err(Error::UnsupportedColorMapType);
        }
        if header.image_type == 0 {
            return Err(Error::NoData);
        }
        match header.is_supported_image_type() {
            Err(e) => {
                return Err(e);
            },
            Ok(_) => {},
        }
        if check_dimensions(header.image_width as u32, header.image_height as u32) {
            return Err(Error::InvalidImageDimensions);
        }
        match header.get_pixel_format() {
            Err(e) => Err(e),
            Ok(_) => Ok(header),
        }
    }

    /// The kind of image that the image-type byte names: `NoData` for 0,
    /// `UnsupportedImageType` for a byte that names no kind.
    pub fn is_supported_image_type(&self) -> (res: Result<TgaImageType, Error>)
        ensures
            res == self.spec_image_type(),
    {
        match self.image_type {
            0 => Err(Error::NoData),
            1 => Ok(TgaImageType::ColorMapped),
            2 => Ok(TgaImageType::TrueColor),
            3 => Ok(TgaImageType::GrayScale),
            9 => Ok(TgaImageType::RLEColorMapped),
            10 => Ok(TgaImageType::RLETrueColor),
            11 => Ok(TgaImageType::RLEGrayScale),
            _ => Err(Error::UnsupportedImageType),
        }
    }

    /// The pixel format that the header announces. The answer depends on
    /// the header's fields alone, and the only errors are `NoData`,
    /// `IllegalHeader` and `UnsupportedPixelFormat`; a header that passed
    /// validation always has a format.
    pub fn get_pixel_format(&self) -> (res: Result<TgaPixelFormat, Error>)
        ensures
            res == self.spec_pixel_format(),
            res matches Err(e) ==> e == Error::NoData || e == Error::IllegalHeader || e
                == Error::UnsupportedPixelFormat,
            self.spec_valid() ==> res is Ok,
    {
        match self.is_supported_image_type() {
            Ok(kind) => {
                match kind {
                    TgaImageType::ColorMapped | TgaImageType::RLEColorMapped => {
                        if self.pixel_depth == 8 {
                            match self.map_entry_size {
                                15 | 16 => Ok(TgaPixelFormat::RGB555),
                                24 => Ok(TgaPixelFormat::RGB24),
                                32 => Ok(TgaPixelFormat::ARGB32),
                                _ => Err(Error::UnsupportedPixelFormat),
                            }
                        } else {
                            Err(Error::IllegalHeader)
                        }
                    },
                    TgaImageType::TrueColor | TgaImageType::RLETrueColor => {
                        match self.pixel_depth {
                            16 => Ok(TgaPixelFormat::RGB555),
                            24 => Ok(TgaPixelFormat::RGB24),
                            32 => Ok(TgaPixelFormat::ARGB32),
                            _ => Err(Error::UnsupportedPixelFormat),
                        }
                    },
                    TgaImageType::GrayScale | TgaImageType::RLEGrayScale => {
                        match self.pixel_depth {
                            8 => Ok(TgaPixelFormat::BW8),
                            16 => Ok(TgaPixelFormat::BW16),
                            _ => Err(Error::UnsupportedPixelFormat),
                        }
                    },
                    TgaImageType::NoData => Err(Error::NoData),
                }
            },
            Err(_) => Err(Error::NoData),
        }
    }

    /// Bytes per pixel of the format that the header announces.
    pub fn get_pixel_size(&self) -> (res: Result<u32, Error>)
        ensures
            res == self.spec_pixel_size(),
            res matches Ok(n) ==> 1 <= n <= 4,
    {
        match self.get_pixel_format() {
            Err(e) => Err(e),
            Ok(format) => match format {
                TgaPixelFormat::BW8 => Ok(1),
                TgaPixelFormat::BW16 | TgaPixelFormat::RGB555 => Ok(2),
                TgaPixelFormat::RGB24 => Ok(3),
                TgaPixelFormat::ARGB32 => Ok(4),
            },
        }
    }
}

/// The pixel format is a function of three header fields: image type,
/// pixel depth and palette entry size. Two headers that agree on them
/// announce the same format or fail with the same error, which can only be
/// `NoData`, `IllegalHeader` or `UnsupportedPixelFormat`; and a header that
/// passes validation announces a format.
pub proof fn lemma_pixel_format_pure(a: TgaHeader, b: TgaHeader)
    requires
        a.image_type == b.image_type,
        a.pixel_depth == b.pixel_depth,
        a.map_entry_size == b.map_entry_size,
    ensures
        a.spec_pixel_format() == b.spec_pixel_format(),
        a.spec_pixel_format() matches Err(e) ==> e == Error::NoData || e == Error::IllegalHeader
            || e == Error::UnsupportedPixelFormat,
        a.spec_valid() ==> a.spec_pixel_format() is Ok,
{
}

impl Default for TgaHeader {
    fn default() -> (header: Self)
        ensures
            header == TgaHeader::spec_new(),
    {
        TgaHeader::new()
    }
}

} // verus!
