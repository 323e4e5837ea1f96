//! Pixel formats, image types and the byte widths that go with them.

use vstd::prelude::*;

verus! {

/// How one decoded pixel is laid out in memory.
#[derive(Clone, Copy, PartialEq, Eq, Debug, Structural)]
pub enum TgaPixelFormat {
    /// 8-bit gray.
    BW8,
    /// 16-bit gray.
    BW16,
    /// 15 bits of colour in two bytes.
    RGB555,
    /// Three bytes of colour.
    RGB24,
    /// Three bytes of colour and one of alpha.
    ARGB32,
}

impl TgaPixelFormat {
    /// Bytes taken by one pixel of this format.
    pub open spec fn spec_bytes_per_pixel(self) -> nat {
        match self {
            TgaPixelFormat::BW8 => 1,
            TgaPixelFormat::BW16 => 2,
            TgaPixelFormat::RGB555 => 2,
            TgaPixelFormat::RGB24 => 3,
            TgaPixelFormat::ARGB32 => 4,
        }
    }

    /// Whether the format is one of the two gray formats.
    pub open spec fn spec_is_gray(self) -> bool {
        self == TgaPixelFormat::BW8 || self == TgaPixelFormat::BW16
    }
}

/// The kind of image a header announces, named after the header's
/// image-type byte.
#[derive(Clone, Copy, PartialEq, Eq, Debug, Structural)]
pub enum TgaImageType {
    NoData,
    ColorMapped,
    TrueColor,
    GrayScale,
    RLEColorMapped,
    RLETrueColor,
    RLEGrayScale,
}

impl TgaImageType {
    /// The image-type byte that stands for this kind on the wire.
    pub open spec fn spec_code(self) -> u8 {
        match self {
            TgaImageType::NoData => 0,
            TgaImageType::ColorMapped => 1,
            TgaImageType::TrueColor => 2,
            TgaImageType::GrayScale => 3,
            TgaImageType::RLEColorMapped => 9,
            TgaImageType::RLETrueColor => 10,
            TgaImageType::RLEGrayScale => 11,
        }
    }

    /// Whether pixels of this kind are palette indices.
    pub open spec fn spec_is_color_mapped(self) -> bool {
        self == TgaImageType::ColorMapped || self == TgaImageType::RLEColorMapped
    }

    /// Whether pixel data of this kind is run-length encoded.
    pub open spec fn spec_is_rle(self) -> bool {
        self == TgaImageType::RLEColorMapped || self == TgaImageType::RLETrueColor || self
            == TgaImageType::RLEGrayScale
    }

    /// The image-type byte that stands for this kind on the wire.
    pub fn code(self) -> (c: u8)
        ensures
            c == self.spec_code(),
    {
        match self {
            TgaImageType::NoData => 0,
            TgaImageType::ColorMapped => 1,
            TgaImageType::TrueColor => 2,
            TgaImageType::GrayScale => 3,
            TgaImageType::RLEColorMapped => 9,
            TgaImageType::RLETrueColor => 10,
            TgaImageType::RLEGrayScale => 11,
        }
    }
}

/// Number of whole bytes needed to hold `bits` bits.
pub open spec fn spec_bits_to_bytes(bits: nat) -> nat {
    (bits + 7) / 8
}

/// Converts a bit count into the number of bytes that hold it: 8 bits take
/// one byte, 9 bits take two.
pub fn bits_to_bytes(bits_count: usize) -> (bytes: usize)
    ensures
        bytes == spec_bits_to_bytes(bits_count as nat),
{
    if bits_count == 0 {
        return 0;
    }
    (bits_count - 1) / 8 + 1
}

} // verus!
