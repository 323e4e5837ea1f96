//! A decoded image: how it is made from the bytes of a file, how it goes
//! back into bytes, and how its pixels are reached and mirrored.

use vstd::prelude::*;
use vstd::slice::slice_subrange;
use vstd::slice::slice_to_vec;
use crate::bytes::append;
use crate::color_map::ColorMap;
use crate::color_map::ColorMapView;
use crate::decode::decode_data;
use crate::decode::lemma_decode_len;
use crate::decode::spec_decode_data;
use crate::decode::spec_map;
use crate::error::Error;
use crate::format::bits_to_bytes;
use crate::format::spec_bits_to_bytes;
use crate::format::TgaImageType;
use crate::format::TgaPixelFormat;
use crate::header::TgaHeader;
use crate::header::HEADER_SIZE;
use crate::info::TgaInfo;
use crate::orient::flip_h;
use crate::orient::flip_v;
use crate::orient::lemma_inside;
use crate::orient::spec_byte_at;
use crate::orient::spec_flip_h;
use crate::orient::spec_flip_v;

verus! {

/// A decoded image. Its pixels stand row after row from the top, each row
/// from the left, each pixel in `bytes_per_pixel` bytes.
#[derive(Debug)]
pub struct Tga {
    pub header: TgaHeader,
    pub info: TgaInfo,
    pub data: Vec<u8>,
}

/// A decoded image as a mathematical value.
pub struct TgaView {
    pub header: TgaHeader,
    pub info: TgaInfo,
    pub data: Seq<u8>,
}

impl View for Tga {
    type V = TgaView;

    open spec fn view(&self) -> TgaView {
        TgaView { header: self.header, info: self.info, data: self.data@ }
    }
}

/// Whether a descriptor byte asks for a horizontal mirror: bit 4 is set.
pub open spec fn spec_flips_h(descriptor: u8) -> bool {
    descriptor & 0x10 != 0
}

/// Whether a descriptor byte asks for a vertical mirror: bit 5 is set.
pub open spec fn spec_flips_v(descriptor: u8) -> bool {
    descriptor & 0x20 != 0
}

/// The pixels as the descriptor byte wants them: mirrored horizontally if
/// bit 4 is set, then vertically if bit 5 is set.
pub open spec fn spec_orient(
    pixels: Seq<u8>,
    descriptor: u8,
    width: nat,
    height: nat,
    size: nat,
) -> Seq<u8> {
    let across: Seq<u8> = if spec_flips_h(descriptor) {
        spec_flip_h(pixels, width, size)
    } else {
        pixels
    };
    if spec_flips_v(descriptor) {
        spec_flip_v(across, width, height, size)
    } else {
        across
    }
}

/// Length in bytes of the palette block that a header announces.
pub open spec fn spec_map_len(header: TgaHeader) -> nat {
    header.map_length as nat * spec_bits_to_bytes(header.map_entry_size as nat)
}

/// The palette that a file holds behind its header, for a color-mapped
/// image; no palette for the other kinds, whatever the header announces.
pub open spec fn spec_color_map(header: TgaHeader, file: Seq<u8>) -> Option<ColorMapView> {
    if header.spec_image_type() matches Ok(kind) && kind.spec_is_color_mapped() {
        Some(
            ColorMapView {
                first_index: header.map_first_entry,
                entry_count: header.map_length,
                bytes_per_entry: spec_bits_to_bytes(header.map_entry_size as nat) as u8,
                pixels: file.subrange(HEADER_SIZE as int, HEADER_SIZE + spec_map_len(header)),
            },
        )
    } else {
        None
    }
}

/// A value within `0 .. limit`: itself if it lies there, else the nearest
/// end.
pub open spec fn spec_clamp(value: int, limit: int) -> int {
    if value < 0 {
        0
    } else if value >= limit {
        limit - 1
    } else {
        value
    }
}

/// The 18 header bytes that an image is saved with: an uncompressed gray or
/// true-color image of the same dimensions, stored from the top.
pub open spec fn spec_save_header(info: TgaInfo, size: u32) -> Seq<u8> {
    seq![
        0u8,
        0u8,
        if info.pixel_format.spec_is_gray() {
            TgaImageType::GrayScale.spec_code()
        } else {
            TgaImageType::TrueColor.spec_code()
        },
        0u8,
        0u8,
        0u8,
        0u8,
        0u8,
        0u8,
        0u8,
        0u8,
        0u8,
        (info.width % 256) as u8,
        (info.width / 256) as u8,
        (info.height % 256) as u8,
        (info.height / 256) as u8,
        (size * 8) as u8,
        if info.pixel_format == TgaPixelFormat::ARGB32 {
            0x28u8
        } else {
            0x20u8
        },
    ]
}

impl TgaView {
    /// The image holds what its header describes: the header is valid, the
    /// description repeats it, and there is one pixel for every place.
    pub open spec fn wf(self) -> bool {
        &&& self.header.spec_valid()
        &&& TgaInfo::spec_from_tga_header(self.header) == Ok::<TgaInfo, Error>(self.info)
        &&& self.header.spec_pixel_size() matches Ok(size) && self.data.len() == self.info.width
            * self.info.height * size
    }

    /// Bytes per pixel of an image whose buffer can be addressed by row and
    /// column, else why it cannot: `NoData` for an empty buffer, the
    /// header's error where it announces no pixel format, and
    /// `InvalidImageDimensions` for a buffer that does not hold exactly
    /// `width * height` pixels.
    pub open spec fn spec_layout(self) -> Result<u32, Error> {
        if self.data.len() == 0 {
            Err(Error::NoData)
        } else {
            match self.header.spec_pixel_size() {
                Err(e) => Err(e),
                Ok(size) => if self.data.len() != self.info.width * self.info.height * size {
                    Err(Error::InvalidImageDimensions)
                } else {
                    Ok(size)
                },
            }
        }
    }

    /// The bytes of the file that the image is saved as: the header, then
    /// the pixel buffer as it is.
    pub open spec fn spec_save(self) -> Result<Seq<u8>, Error> {
        match self.header.spec_pixel_size() {
            Err(e) => Err(e),
            Ok(size) => Ok(spec_save_header(self.info, size) + self.data),
        }
    }
}

impl Tga {
    /// The image that the bytes of a file decode to.
    ///
    /// The header comes first and must be valid. The palette block that it
    /// announces follows, and after it the pixel data; a file that ends
    /// before the palette block does is `FileCannotRead`. The pixels are
    /// decoded and then mirrored as the descriptor byte asks.
    pub open spec fn spec_new(file: Seq<u8>) -> Result<TgaView, Error> {
        match TgaHeader::spec_from_file(file) {
            Err(e) => Err(e),
            Ok(header) => match TgaInfo::spec_from_tga_header(header) {
                Err(e) => Err(e),
                Ok(info) => match header.spec_pixel_size() {
                    Err(e) => Err(e),
                    Ok(size) => {
                        let start: int = HEADER_SIZE + spec_map_len(header);
                        if file.len() < start {
                            Err(Error::FileCannotRead)
                        } else {
                            match spec_decode_data(
                                header,
                                spec_color_map(header, file),
                                file.skip(start),
                            ) {
                                Err(e) => Err(e),
                                Ok(pixels) => Ok(
                                    TgaView {
                                        header: header,
                                        info: info,
                                        data: spec_orient(
                                            pixels,
                                            header.image_descripter,
                                            info.width as nat,
                                            info.height as nat,
                                            size as nat,
                                        ),
                                    },
                                ),
                            }
                        }
                    },
                },
            },
        }
    }

    /// Decodes an image from `file`, the bytes of a TGA file: header,
    /// palette block, pixel data. The image that comes back starts at its
    /// top-left corner, whatever the file's orientation was, and keeps no
    /// palette.
    ///
    /// The outcome depends on the bytes alone: the same file decodes to the
    /// same image every time.
    pub fn new(file: &[u8]) -> (res: Result<Tga, Error>)
        ensures
            match Tga::spec_new(file@) {
                Ok(image) => res matches Ok(tga) && tga@ == image && image.wf(),
                Err(e) => res matches Err(err) && err == e,
            },
    {
        let header: TgaHeader = match TgaHeader::from_file(file) {
            Err(e) => {
                return Err(e);
            },
            Ok(header) => header,
        };
        let info: TgaInfo = match TgaInfo::from_tga_header(&header) {
            Err(e) => {
                return Err(e);
            },
            Ok(info) => info,
        };
        let kind: TgaImageType = match header.is_supported_image_type() {
            Err(e) => {
                return Err(e);
            },
            Ok(kind) => kind,
        };
        let size: usize = match header.get_pixel_size() {
            Err(e) => {
                return Err(e);
            },
            Ok(size) => size as usize,
        };
        let entry_bytes: usize = bits_to_bytes(header.map_entry_size as usize);
        assert(header.map_length * entry_bytes <= 0xffff * 32) by (nonlinear_arith)
            requires
                header.map_length <= 0xffff,
                entry_bytes <= 32,
        ;
        let map_size: usize = header.map_length as usize * entry_bytes;
        if file.len() - HEADER_SIZE < map_size {
            return Err(Error::FileCannotRead);
        }
        let start: usize = HEADER_SIZE + map_size;
        let map: Option<ColorMap> = match kind {
            TgaImageType::ColorMapped | TgaImageType::RLEColorMapped => Some(
                ColorMap {
                    first_index: header.map_first_entry,
                    entry_count: header.map_length,
                    bytes_per_entry: entry_bytes as u8,
                    pixels: slice_to_vec(slice_subrange(file, HEADER_SIZE, start)),
                },
            ),
            _ => None,
        };
        let mut data: Vec<u8> = match decode_data(
            &header,
            &map,
            slice_subrange(file, start, file.len()),
        ) {
            Err(e) => {
                return Err(e);
            },
            Ok(data) => data,
        };
        proof {
            lemma_decode_len(header, spec_map(map), file@.skip(start as int));
        }
        if header.image_descripter & 0x10 != 0 {
            flip_h(&mut data, info.width as usize, info.height as usize, size);
        }
        if header.image_descripter & 0x20 != 0 {
            flip_v(&mut data, info.width as usize, info.height as usize, size);
        }
        Ok(Tga { header: header, info: info, data: data })
    }

    /// Encodes the image as the bytes of a TGA file: an 18-byte header and
    /// the pixel buffer as it is. The file is always uncompressed and has no
    /// palette: gray where `info` names one of the two gray formats,
    /// true-color for the others. The header gives the width and height of
    /// `info`, a pixel depth of eight bits for every byte of a pixel, and a
    /// descriptor byte of `0x28` for `ARGB32` and `0x20` otherwise; every
    /// other field is zero.
    ///
    /// Fails exactly when the image's own header announces no pixel format,
    /// with the error that `get_pixel_size` gives.
    pub fn save(&self) -> (res: Result<Vec<u8>, Error>)
        ensures
            match self@.spec_save() {
                Ok(bytes) => res matches Ok(v) && v@ == bytes,
                Err(e) => res matches Err(err) && err == e,
            },
    {
        let size: u32 = match self.header.get_pixel_size() {
            Err(e) => {
                return Err(e);
            },
            Ok(size) => size,
        };
        let kind: u8 = match self.info.pixel_format {
            TgaPixelFormat::BW8 | TgaPixelFormat::BW16 => TgaImageType::GrayScale.code(),
            _ => TgaImageType::TrueColor.code(),
        };
        let descriptor: u8 = match self.info.pixel_format {
            TgaPixelFormat::ARGB32 => 0x28,
            _ => 0x20,
        };
        let mut out: Vec<u8> = Vec::new();
        out.push(0);
        out.push(0);
        out.push(kind);
        out.push(0);
        out.push(0);
        out.push(0);
        out.push(0);
        out.push(0);
        out.push(0);
        out.push(0);
        out.push(0);
        out.push(0);
        out.push((self.info.width % 256) as u8);
        out.push((self.info.width / 256) as u8);
        out.push((self.info.height % 256) as u8);
        out.push((self.info.height / 256) as u8);
        out.push((size * 8) as u8);
        out.push(descriptor);
        append(&mut out, self.data.as_slice());
        Ok(out)
    }

    /// Bytes per pixel, where the buffer can be addressed by row and
    /// column.
    fn layout(&self) -> (res: Result<usize, Error>)
        ensures
            match self@.spec_layout() {
                Ok(size) => res == Ok::<usize, Error>(size as usize) && 1 <= size <= 4,
                Err(e) => res matches Err(err) && err == e,
            },
            self@.wf() ==> self@.spec_layout() is Ok,
    {
        proof {
            if self@.wf() {
                lemma_wf_layout(self@);
            }
        }
        if self.data.len() == 0 {
            return Err(Error::NoData);
        }
        let size: u32 = match self.header.get_pixel_size() {
            Err(e) => {
                return Err(e);
            },
            Ok(size) => size,
        };
        assert(self.info.width * self.info.height <= 0xffff * 0xffff) by (nonlinear_arith)
            requires
                self.info.width <= 0xffff,
                self.info.height <= 0xffff,
        ;
        let count: u64 = self.info.width as u64 * self.info.height as u64;
        assert(count * size <= 0xffff * 0xffff * 4) by (nonlinear_arith)
            requires
                count <= 0xffff * 0xffff,
                size <= 4,
        ;
        let total: u64 = count * size as u64;
        if self.data.len() as u64 != total {
            return Err(Error::InvalidImageDimensions);
        }
        Ok(size as usize)
    }

    /// Mirrors the image horizontally, in place: in every row, the pixel in
    /// column `i` changes places with the one in column `width - 1 - i`.
    /// Whole pixels move; header and description stay.
    ///
    /// Fails, changing nothing, exactly when the buffer cannot be addressed
    /// by row and column: see `spec_layout`.
    pub fn image_flip_h(&mut self) -> (res: Result<(), Error>)
        ensures
            final(self).header == old(self).header,
            final(self).info == old(self).info,
            old(self)@.wf() ==> res is Ok && final(self)@.wf(),
            match old(self)@.spec_layout() {
                Ok(size) => res is Ok && final(self).data@ == spec_flip_h(
                    old(self).data@,
                    old(self).info.width as nat,
                    size as nat,
                ),
                Err(e) => res matches Err(err) && err == e && final(self).data@ == old(
                    self,
                ).data@,
            },
    {
        let size: usize = match self.layout() {
            Err(e) => {
                return Err(e);
            },
            Ok(size) => size,
        };
        flip_h(&mut self.data, self.info.width as usize, self.info.height as usize, size);
        Ok(())
    }

    /// Mirrors the image vertically, in place: in every column, the pixel
    /// in row `i` changes places with the one in row `height - 1 - i`.
    /// Whole pixels move; header and description stay.
    ///
    /// Fails, changing nothing, exactly when the buffer cannot be addressed
    /// by row and column: see `spec_layout`.
    pub fn image_flip_v(&mut self) -> (res: Result<(), Error>)
        ensures
            final(self).header == old(self).header,
            final(self).info == old(self).info,
            old(self)@.wf() ==> res is Ok && final(self)@.wf(),
            match old(self)@.spec_layout() {
                Ok(size) => res is Ok && final(self).data@ == spec_flip_v(
                    old(self).data@,
                    old(self).info.width as nat,
                    old(self).info.height as nat,
                    size as nat,
                ),
                Err(e) => res matches Err(err) && err == e && final(self).data@ == old(
                    self,
                ).data@,
            },
    {
        let size: usize = match self.layout() {
            Err(e) => {
                return Err(e);
            },
            Ok(size) => size,
        };
        flip_v(&mut self.data, self.info.width as usize, self.info.height as usize, size);
        Ok(())
    }

    /// Position in the buffer of the first byte of the pixel in column `x`
    /// of row `y`, counted from the top-left corner. A coordinate outside
    /// the image is moved to the nearest edge first: a negative one to 0,
    /// one that is too large to the last column or row.
    ///
    /// Fails exactly when the buffer cannot be addressed by row and column:
    /// see `spec_layout`.
    pub fn get_pixel(&self, x: i32, y: i32) -> (res: Result<usize, Error>)
        ensures
            match self@.spec_layout() {
                Ok(size) => res matches Ok(at) && at == spec_byte_at(
                    spec_clamp(y as int, self.info.height as int),
                    spec_clamp(x as int, self.info.width as int),
                    0,
                    self.info.width as int,
                    size as int,
                ) && at + size <= self.data@.len(),
                Err(e) => res matches Err(err) && err == e,
            },
    {
        let size: usize = match self.layout() {
            Err(e) => {
                return Err(e);
            },
            Ok(size) => size,
        };
        let width: usize = self.info.width as usize;
        let height: usize = self.info.height as usize;
        proof {
            crate::orient::lemma_layout_nonempty(0, width as int, height as int, size as int);
        }
        let col: usize = if x < 0 {
            0
        } else if x >= self.info.width as i32 {
            width - 1
        } else {
            x as usize
        };
        let row: usize = if y < 0 {
            0
        } else if y >= self.info.height as i32 {
            height - 1
        } else {
            y as usize
        };
        proof {
            lemma_inside(row as int, col as int, width as int, height as int, size as int);
            assert(self.data.len() == width * height * size);
        }
        Ok((row * width + col) * size)
    }
}

/// A well-formed image has a buffer that can be addressed by row and
/// column.
pub proof fn lemma_wf_layout(image: TgaView)
    requires
        image.wf(),
    ensures
        image.spec_layout() == image.header.spec_pixel_size(),
        image.spec_layout() is Ok,
{
    let size: u32 = image.header.spec_pixel_size()->Ok_0;
    assert(image.info.width * image.info.height * size > 0) by (nonlinear_arith)
        requires
            image.info.width > 0,
            image.info.height > 0,
            size > 0,
    ;
}

/// A file whose header has a zero width or a zero height decodes to
/// `InvalidImageDimensions`, whatever follows the header: no pixel is read.
/// This holds of every header that gets as far as the check of its
/// dimensions, that is, whose color-map type is 0 or 1 and whose image type
/// is one of the six kinds with data.
pub proof fn lemma_zero_dimension_rejected(file: Seq<u8>)
    requires
        file.len() >= HEADER_SIZE,
        TgaHeader::spec_parse(file).map_type <= 1,
        TgaHeader::spec_parse(file).spec_image_type() is Ok,
        TgaHeader::spec_parse(file).image_width == 0 || TgaHeader::spec_parse(file).image_height
            == 0,
    ensures
        TgaHeader::spec_from_file(file) == Err::<TgaHeader, Error>(Error::InvalidImageDimensions),
        Tga::spec_new(file) == Err::<TgaView, Error>(Error::InvalidImageDimensions),
{
}

/// Decoding an uncompressed gray or true-color file and saving the image
/// again keeps the pixel bytes. The saved file holds, behind its header,
/// the buffer of the decoded image; that buffer is the pixel data of the
/// decoded file, mirrored as its descriptor byte asked; and where the
/// descriptor asked for no mirror, the pixel bytes of the two files are the
/// same.
pub proof fn lemma_round_trip(file: Seq<u8>)
    requires
        Tga::spec_new(file) is Ok,
        TgaHeader::spec_parse(file).spec_image_type() == Ok::<TgaImageType, Error>(
            TgaImageType::TrueColor,
        ) || TgaHeader::spec_parse(file).spec_image_type() == Ok::<TgaImageType, Error>(
            TgaImageType::GrayScale,
        ),
    ensures
        ({
            let image: TgaView = Tga::spec_new(file)->Ok_0;
            let size: u32 = image.header.spec_pixel_size()->Ok_0;
            let start: int = HEADER_SIZE + spec_map_len(image.header);
            let stored: Seq<u8> = file.subrange(
                start,
                start + image.info.width * image.info.height * size,
            );
            &&& image.header.spec_pixel_size() is Ok
            &&& start + image.info.width * image.info.height * size <= file.len()
            &&& image.spec_save() matches Ok(saved) && saved.skip(HEADER_SIZE as int)
                == image.data
            &&& image.data == spec_orient(
                stored,
                image.header.image_descripter,
                image.info.width as nat,
                image.info.height as nat,
                size as nat,
            )
            &&& !spec_flips_h(image.header.image_descripter) && !spec_flips_v(
                image.header.image_descripter,
            ) ==> image.data == stored
        }),
{
    let image: TgaView = Tga::spec_new(file)->Ok_0;
    let size: u32 = image.header.spec_pixel_size()->Ok_0;
    let start: int = HEADER_SIZE + spec_map_len(image.header);
    let total: int = image.info.width * image.info.height * size;
    assert(file.skip(start).take(total) =~= file.subrange(start, start + total));
    assert((spec_save_header(image.info, size) + image.data).skip(HEADER_SIZE as int)
        =~= image.data);
}

/// A saved image reads back as what it is: the file that a well-formed
/// image is saved as has a valid header, which describes an image of the
/// same width, height and pixel format.
pub proof fn lemma_saved_header(image: TgaView)
    requires
        image.wf(),
    ensures
        ({
            let saved: Seq<u8> = image.spec_save()->Ok_0;
            let header: TgaHeader = TgaHeader::spec_from_file(saved)->Ok_0;
            &&& image.spec_save() is Ok
            &&& TgaHeader::spec_from_file(saved) is Ok
            &&& TgaInfo::spec_from_tga_header(header) == Ok::<TgaInfo, Error>(image.info)
        }),
{
}

/// Saving an image and decoding the saved file gives the image back upside
/// down: the saved header always has bit 5 of its descriptor byte set and
/// never bit 4, so decoding mirrors the buffer vertically. Width, height
/// and pixel format are kept.
pub proof fn lemma_saved_file_decodes(image: TgaView)
    requires
        image.wf(),
        image.data.len() <= usize::MAX,
    ensures
        ({
            let size: u32 = image.header.spec_pixel_size()->Ok_0;
            let saved: Seq<u8> = image.spec_save()->Ok_0;
            let again: TgaView = Tga::spec_new(saved)->Ok_0;
            &&& image.spec_save() is Ok
            &&& Tga::spec_new(saved) is Ok
            &&& again.info == image.info
            &&& again.data == spec_flip_v(
                image.data,
                image.info.width as nat,
                image.info.height as nat,
                size as nat,
            )
        }),
{
    lemma_saved_header(image);
    let size: u32 = image.header.spec_pixel_size()->Ok_0;
    let saved: Seq<u8> = spec_save_header(image.info, size) + image.data;
    let header: TgaHeader = TgaHeader::spec_parse(saved);
    assert(spec_map_len(header) == 0) by (nonlinear_arith)
        requires
            header.map_length == 0,
            spec_map_len(header) == header.map_length as nat * spec_bits_to_bytes(
                header.map_entry_size as nat,
            ),
    ;
    assert(saved.skip(HEADER_SIZE as int) =~= image.data);
    assert(image.data.take(image.data.len() as int) =~= image.data);
    assert(0x20u8 & 0x10 == 0 && 0x20u8 & 0x20 != 0 && 0x28u8 & 0x10 == 0 && 0x28u8 & 0x20 != 0)
        by (bit_vector);
}

} // verus!
