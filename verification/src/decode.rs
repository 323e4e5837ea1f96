//! Pixel data: how the bytes that follow header and palette become the
//! pixel buffer, with and without run-length encoding, with and without a
//! palette.

use vstd::prelude::*;
use vstd::slice::slice_subrange;
use vstd::slice::slice_to_vec;
use crate::bytes::append;
use crate::bytes::scratch;
use crate::color_map::ColorMap;
use crate::color_map::ColorMapView;
use crate::error::Error;
use crate::format::TgaImageType;
use crate::header::TgaHeader;

verus! {

/// The palette as a mathematical value, where there is one.
pub open spec fn spec_map(map: Option<ColorMap>) -> Option<ColorMapView> {
    match map {
        Some(m) => Some(m@),
        None => None,
    }
}

/// Whether a packet's first byte announces a run: bit 7 is set.
pub open spec fn spec_packet_is_run(packet: u8) -> bool {
    packet & 0x80 != 0
}

/// The number of pixels that a packet's first byte announces: its low seven
/// bits, plus one.
pub open spec fn spec_packet_count(packet: u8) -> nat {
    ((packet & 0x7f) + 1) as nat
}

/// `pixel` written `times` times over.
pub open spec fn spec_repeat(pixel: Seq<u8>, times: nat) -> Seq<u8>
    decreases times,
{
    if times == 0 {
        Seq::empty()
    } else {
        spec_repeat(pixel, (times - 1) as nat) + pixel
    }
}

/// `head` put in front of a decoded rest, where the rest was decoded.
pub open spec fn spec_prepend(head: Seq<u8>, rest: Result<Seq<u8>, Error>) -> Result<
    Seq<u8>,
    Error,
> {
    match rest {
        Ok(tail) => Ok(head + tail),
        Err(e) => Err(e),
    }
}

/// The pixel that one unit of the stream stands for. Without a palette the
/// unit is the pixel. With one, the unit's first byte is an index and the
/// pixel is the entry it names; an index that names none, or any index
/// where no palette is at hand, is `ColorMapIndexFailed`.
pub open spec fn spec_resolve(map: Option<ColorMapView>, indexed: bool, unit: Seq<u8>) -> Result<
    Seq<u8>,
    Error,
> {
    if !indexed {
        Ok(unit)
    } else {
        match map {
            None => Err(Error::ColorMapIndexFailed),
            Some(m) => if m.spec_has_color(unit[0] as u16) {
                Ok(m.spec_color(unit[0] as u16))
            } else {
                Err(Error::ColorMapIndexFailed)
            },
        }
    }
}

/// `count` pixels stored one unit of `size` bytes after the other at the
/// start of `stream`. The units are read in order: the first one that the
/// stream is too short for is `FileCannotRead`, the first one that does not
/// resolve is `ColorMapIndexFailed`.
pub open spec fn spec_units(
    map: Option<ColorMapView>,
    indexed: bool,
    size: nat,
    stream: Seq<u8>,
    count: nat,
) -> Result<Seq<u8>, Error>
    decreases count,
{
    if count == 0 {
        Ok(Seq::empty())
    } else if stream.len() < size {
        Err(Error::FileCannotRead)
    } else {
        match spec_resolve(map, indexed, stream.take(size as int)) {
            Err(e) => Err(e),
            Ok(pixel) => spec_prepend(
                pixel,
                spec_units(map, indexed, size, stream.skip(size as int), (count - 1) as nat),
            ),
        }
    }
}

/// `count` pixels stored as run-length packets at the start of `stream`.
///
/// A packet opens with one byte that tells its kind and how many pixels it
/// announces. A run packet goes on with a single unit, whose pixel is
/// repeated; a raw packet goes on with one unit for each pixel. The last
/// packet gives only as many pixels as are still wanted, and no unit beyond
/// those is read.
pub open spec fn spec_rle(
    map: Option<ColorMapView>,
    indexed: bool,
    size: nat,
    stream: Seq<u8>,
    count: nat,
) -> Result<Seq<u8>, Error>
    decreases count,
{
    if count == 0 {
        Ok(Seq::empty())
    } else if stream.len() < 1 {
        Err(Error::FileCannotRead)
    } else {
        let body: Seq<u8> = stream.skip(1);
        let taken: nat = if spec_packet_count(stream[0]) < count {
            spec_packet_count(stream[0])
        } else {
            count
        };
        if spec_packet_is_run(stream[0]) {
            if body.len() < size {
                Err(Error::FileCannotRead)
            } else {
                match spec_resolve(map, indexed, body.take(size as int)) {
                    Err(e) => Err(e),
                    Ok(pixel) => spec_prepend(
                        spec_repeat(pixel, taken),
                        spec_rle(map, indexed, size, body.skip(size as int), (count - taken) as nat),
                    ),
                }
            }
        } else {
            match spec_units(map, indexed, size, body, taken) {
                Err(e) => Err(e),
                Ok(pixels) => spec_prepend(
                    pixels,
                    spec_rle(
                        map,
                        indexed,
                        size,
                        body.skip((taken * size) as int),
                        (count - taken) as nat,
                    ),
                ),
            }
        }
    }
}

/// The pixel buffer that `stream` holds for the image that `header`
/// announces, in stream order, before any mirroring.
///
/// The header must name an image type and a pixel format, else their error
/// comes back. A palette for a color-mapped image must have entries as wide
/// as a pixel, else `UnsupportedPixelFormat`. A buffer too large for this
/// machine to address is `ErrorOutOfMemory`. Then the pixels are read:
/// verbatim, unit by unit through the palette, or from run-length packets.
pub open spec fn spec_decode_data(
    header: TgaHeader,
    map: Option<ColorMapView>,
    stream: Seq<u8>,
) -> Result<Seq<u8>, Error> {
    match header.spec_image_type() {
        Err(e) => Err(e),
        Ok(kind) => match header.spec_pixel_size() {
            Err(e) => Err(e),
            Ok(size) => {
                let count: nat = (header.image_width * header.image_height) as nat;
                if kind.spec_is_color_mapped() && (map matches Some(m) && m.bytes_per_entry
                    != size) {
                    Err(Error::UnsupportedPixelFormat)
                } else if count * size > usize::MAX {
                    Err(Error::ErrorOutOfMemory)
                } else if kind.spec_is_rle() {
                    spec_rle(map, kind.spec_is_color_mapped(), size as nat, stream, count)
                } else if kind.spec_is_color_mapped() {
                    spec_units(map, true, size as nat, stream, count)
                } else if stream.len() < count * size {
                    Err(Error::FileCannotRead)
                } else {
                    Ok(stream.take((count * size) as int))
                }
            },
        },
    }
}

/// Putting two pieces in front of a rest, one after the other, is putting
/// their concatenation in front of it.
proof fn lemma_prepend_twice(first: Seq<u8>, second: Seq<u8>, rest: Result<Seq<u8>, Error>)
    ensures
        spec_prepend(first, spec_prepend(second, rest)) == spec_prepend(first + second, rest),
{
    match rest {
        Ok(tail) => {
            assert(first + (second + tail) =~= (first + second) + tail);
        },
        Err(_) => {},
    }
}

/// Decoded units are as long as their palette entries, or as the units
/// themselves where there is no palette.
pub proof fn lemma_units_len(
    map: Option<ColorMapView>,
    indexed: bool,
    size: nat,
    stream: Seq<u8>,
    count: nat,
)
    requires
        indexed ==> (map matches Some(m) ==> m.bytes_per_entry == size),
    ensures
        spec_units(map, indexed, size, stream, count) matches Ok(pixels) ==> pixels.len() == count
            * size,
    decreases count,
{
    if count == 0 {
        assert(count * size == 0) by (nonlinear_arith)
            requires
                count == 0,
        ;
    } else if stream.len() >= size {
        let fewer: nat = (count - 1) as nat;
        lemma_units_len(map, indexed, size, stream.skip(size as int), fewer);
        lemma_resolve_len(map, indexed, stream.take(size as int));
        assert(size + fewer * size == count * size) by (nonlinear_arith)
            requires
                fewer + 1 == count,
        ;
    }
}

/// A repeated pixel is as long as the pixel, times the repetitions.
pub proof fn lemma_repeat_len(pixel: Seq<u8>, times: nat)
    ensures
        spec_repeat(pixel, times).len() == times * pixel.len(),
    decreases times,
{
    if times > 0 {
        let fewer: nat = (times - 1) as nat;
        lemma_repeat_len(pixel, fewer);
        assert(fewer * pixel.len() + pixel.len() == times * pixel.len()) by (nonlinear_arith)
            requires
                fewer + 1 == times,
        ;
    } else {
        assert(times * pixel.len() == 0) by (nonlinear_arith)
            requires
                times == 0,
        ;
    }
}

/// A resolved pixel is as long as its unit, where palette entries are as
/// wide as units.
pub proof fn lemma_resolve_len(map: Option<ColorMapView>, indexed: bool, unit: Seq<u8>)
    requires
        indexed ==> (map matches Some(m) ==> m.bytes_per_entry == unit.len()),
    ensures
        spec_resolve(map, indexed, unit) matches Ok(pixel) ==> pixel.len() == unit.len(),
{
    if indexed {
        if let Some(m) = map {
            let at: int = m.spec_effective_index(unit[0] as u16);
            assert((at + 1) * m.bytes_per_entry - at * m.bytes_per_entry == m.bytes_per_entry)
                by (nonlinear_arith);
            assert(0 <= at * m.bytes_per_entry) by (nonlinear_arith)
                requires
                    0 <= at,
            ;
        }
    }
}

/// Pixels decoded from run-length packets are as many as were asked for.
pub proof fn lemma_rle_len(
    map: Option<ColorMapView>,
    indexed: bool,
    size: nat,
    stream: Seq<u8>,
    count: nat,
)
    requires
        indexed ==> (map matches Some(m) ==> m.bytes_per_entry == size),
    ensures
        spec_rle(map, indexed, size, stream, count) matches Ok(pixels) ==> pixels.len() == count
            * size,
    decreases count,
{
    if count == 0 {
        assert(count * size == 0) by (nonlinear_arith)
            requires
                count == 0,
        ;
    } else if stream.len() >= 1 {
        let body: Seq<u8> = stream.skip(1);
        let taken: nat = if spec_packet_count(stream[0]) < count {
            spec_packet_count(stream[0])
        } else {
            count
        };
        let fewer: nat = (count - taken) as nat;
        assert(taken * size + fewer * size == count * size) by (nonlinear_arith)
            requires
                taken + fewer == count,
        ;
        if spec_packet_is_run(stream[0]) {
            if body.len() >= size {
                lemma_resolve_len(map, indexed, body.take(size as int));
                if let Ok(pixel) = spec_resolve(map, indexed, body.take(size as int)) {
                    lemma_repeat_len(pixel, taken);
                    lemma_rle_len(map, indexed, size, body.skip(size as int), fewer);
                }
            }
        } else {
            lemma_units_len(map, indexed, size, body, taken);
            lemma_rle_len(map, indexed, size, body.skip((taken * size) as int), fewer);
        }
    }
}

/// A decoded buffer holds one pixel for every place of the image.
pub proof fn lemma_decode_len(header: TgaHeader, map: Option<ColorMapView>, stream: Seq<u8>)
    ensures
        spec_decode_data(header, map, stream) matches Ok(pixels) ==> header.spec_pixel_size()
            matches Ok(size) && pixels.len() == header.image_width * header.image_height * size,
{
    if let Ok(kind) = header.spec_image_type() {
        if let Ok(size) = header.spec_pixel_size() {
            let count: nat = (header.image_width * header.image_height) as nat;
            if kind.spec_is_color_mapped() && (map matches Some(m) && m.bytes_per_entry != size) {
            } else if kind.spec_is_rle() {
                lemma_rle_len(map, kind.spec_is_color_mapped(), size as nat, stream, count);
            } else if kind.spec_is_color_mapped() {
                lemma_units_len(map, true, size as nat, stream, count);
            }
        }
    }
}

/// Units that decode take up at least their own length of the stream.
pub proof fn lemma_units_need(
    map: Option<ColorMapView>,
    indexed: bool,
    size: nat,
    stream: Seq<u8>,
    count: nat,
)
    ensures
        spec_units(map, indexed, size, stream, count) is Ok ==> stream.len() >= count * size,
    decreases count,
{
    if count == 0 {
        assert(count * size == 0) by (nonlinear_arith)
            requires
                count == 0,
        ;
    } else if stream.len() >= size {
        let fewer: nat = (count - 1) as nat;
        lemma_units_need(map, indexed, size, stream.skip(size as int), fewer);
        assert(size + fewer * size == count * size) by (nonlinear_arith)
            requires
                fewer + 1 == count,
        ;
    }
}

/// Units that decode do so whatever follows them in the stream.
pub proof fn lemma_units_ignore_rest(
    map: Option<ColorMapView>,
    indexed: bool,
    size: nat,
    stream: Seq<u8>,
    extra: Seq<u8>,
    count: nat,
)
    requires
        spec_units(map, indexed, size, stream, count) is Ok,
    ensures
        spec_units(map, indexed, size, stream + extra, count) == spec_units(
            map,
            indexed,
            size,
            stream,
            count,
        ),
    decreases count,
{
    if count > 0 {
        assert((stream + extra).take(size as int) =~= stream.take(size as int));
        assert((stream + extra).skip(size as int) =~= stream.skip(size as int) + extra);
        lemma_units_ignore_rest(
            map,
            indexed,
            size,
            stream.skip(size as int),
            extra,
            (count - 1) as nat,
        );
    }
}

/// Run-length packets that decode do so whatever follows them in the
/// stream.
pub proof fn lemma_rle_ignores_rest(
    map: Option<ColorMapView>,
    indexed: bool,
    size: nat,
    stream: Seq<u8>,
    extra: Seq<u8>,
    count: nat,
)
    requires
        spec_rle(map, indexed, size, stream, count) is Ok,
    ensures
        spec_rle(map, indexed, size, stream + extra, count) == spec_rle(
            map,
            indexed,
            size,
            stream,
            count,
        ),
    decreases count,
{
    if count > 0 {
        let body: Seq<u8> = stream.skip(1);
        let taken: nat = if spec_packet_count(stream[0]) < count {
            spec_packet_count(stream[0])
        } else {
            count
        };
        let fewer: nat = (count - taken) as nat;
        assert((stream + extra).skip(1) =~= body + extra);
        if spec_packet_is_run(stream[0]) {
            assert((body + extra).take(size as int) =~= body.take(size as int));
            assert((body + extra).skip(size as int) =~= body.skip(size as int) + extra);
            lemma_rle_ignores_rest(map, indexed, size, body.skip(size as int), extra, fewer);
        } else {
            lemma_units_need(map, indexed, size, body, taken);
            lemma_units_ignore_rest(map, indexed, size, body, extra, taken);
            assert((body + extra).skip((taken * size) as int) =~= body.skip((taken * size) as int)
                + extra);
            lemma_rle_ignores_rest(
                map,
                indexed,
                size,
                body.skip((taken * size) as int),
                extra,
                fewer,
            );
        }
    }
}

/// Bytes behind the pixel data play no part: a stream that decodes still
/// decodes, and to the same pixels, with anything appended to it.
pub proof fn lemma_decode_ignores_rest(
    header: TgaHeader,
    map: Option<ColorMapView>,
    stream: Seq<u8>,
    extra: Seq<u8>,
)
    requires
        spec_decode_data(header, map, stream) is Ok,
    ensures
        spec_decode_data(header, map, stream + extra) == spec_decode_data(header, map, stream),
{
    let kind: TgaImageType = header.spec_image_type()->Ok_0;
    let size: u32 = header.spec_pixel_size()->Ok_0;
    let count: nat = (header.image_width * header.image_height) as nat;
    if kind.spec_is_rle() {
        lemma_rle_ignores_rest(map, kind.spec_is_color_mapped(), size as nat, stream, extra, count);
    } else if kind.spec_is_color_mapped() {
        lemma_units_ignore_rest(map, true, size as nat, stream, extra, count);
    } else {
        assert((stream + extra).take((count * size) as int) =~= stream.take(
            (count * size) as int,
        ));
    }
}

/// Decoding is a function of the stream, the palette and five header
/// fields: image type, pixel depth, palette entry size, width and height.
/// The same stream under two headers that agree on these decodes to the
/// same bytes, or fails with the same error.
pub proof fn lemma_decode_pure(
    a: TgaHeader,
    b: TgaHeader,
    map: Option<ColorMapView>,
    first: Seq<u8>,
    second: Seq<u8>,
)
    requires
        a.image_type == b.image_type,
        a.pixel_depth == b.pixel_depth,
        a.map_entry_size == b.map_entry_size,
        a.image_width == b.image_width,
        a.image_height == b.image_height,
        first =~= second,
    ensures
        spec_decode_data(a, map, first) == spec_decode_data(b, map, second),
{
}

/// Reads the unit at `pos` into `buf` and, where pixels are indices,
/// replaces it there by the palette entry it names.
fn read_pixel(
    map: &Option<ColorMap>,
    indexed: bool,
    stream: &[u8],
    pos: usize,
    buf: &mut Vec<u8>,
) -> (res: Result<(), Error>)
    requires
        old(buf)@.len() >= 1,
        pos + old(buf)@.len() <= stream@.len(),
        indexed ==> (map matches Some(m) ==> m.bytes_per_entry == old(buf)@.len()),
    ensures
        final(buf)@.len() == old(buf)@.len(),
        match spec_resolve(
            spec_map(*map),
            indexed,
            stream@.subrange(pos as int, pos + old(buf)@.len()),
        ) {
            Ok(pixel) => res is Ok && final(buf)@ == pixel,
            Err(e) => res == Err::<(), Error>(e),
        },
{
    let size: usize = buf.len();
    let mut k: usize = 0;
    while k < size
        invariant
            k <= size,
            size == buf@.len(),
            size == old(buf)@.len(),
            pos + size <= stream.len(),
            forall|j: int| 0 <= j < k ==> buf@[j] == stream@[pos + j],
        decreases size - k,
    {
        buf[k] = stream[pos + k];
        k += 1;
    }
    if indexed {
        match map {
            None => Err(Error::ColorMapIndexFailed),
            Some(m) => {
                let index: u16 = buf[0] as u16;
                m.try_get_color(buf.as_mut_slice(), index)
            },
        }
    } else {
        Ok(())
    }
}

/// Decodes `count` units that start at `start` and appends their pixels to
/// `out`. Gives the position behind the last unit.
fn decode_units(
    map: &Option<ColorMap>,
    indexed: bool,
    stream: &[u8],
    start: usize,
    count: usize,
    buf: &mut Vec<u8>,
    out: &mut Vec<u8>,
) -> (res: Result<usize, Error>)
    requires
        old(buf)@.len() >= 1,
        start <= stream@.len(),
        indexed ==> (map matches Some(m) ==> m.bytes_per_entry == old(buf)@.len()),
    ensures
        final(buf)@.len() == old(buf)@.len(),
        match spec_units(
            spec_map(*map),
            indexed,
            old(buf)@.len(),
            stream@.skip(start as int),
            count as nat,
        ) {
            Ok(pixels) => res == Ok::<usize, Error>((start + count * old(buf)@.len()) as usize)
                && start + count * old(buf)@.len() <= stream@.len() && final(out)@ == old(out)@
                + pixels,
            Err(e) => res == Err::<usize, Error>(e),
        },
{
    let size: usize = buf.len();
    let ghost m = spec_map(*map);
    let ghost all = spec_units(m, indexed, size as nat, stream@.skip(start as int), count as nat);
    let ghost mut acc: Seq<u8> = Seq::empty();
    let mut pos: usize = start;
    let mut k: usize = 0;
    while k < count
        invariant
            k <= count,
            size == buf@.len(),
            size == old(buf)@.len(),
            size >= 1,
            pos == start + k * size,
            pos <= stream.len(),
            m == spec_map(*map),
            indexed ==> (map matches Some(cm) ==> cm.bytes_per_entry == size),
            out@ == old(out)@ + acc,
            all == spec_units(m, indexed, size as nat, stream@.skip(start as int), count as nat),
            all == spec_prepend(
                acc,
                spec_units(m, indexed, size as nat, stream@.skip(pos as int), (count - k) as nat),
            ),
        decreases count - k,
    {
        let ghost rest = stream@.skip(pos as int);
        if stream.len() - pos < size {
            return Err(Error::FileCannotRead);
        }
        assert(rest.take(size as int) =~= stream@.subrange(pos as int, pos + size));
        match read_pixel(map, indexed, stream, pos, buf) {
            Err(e) => {
                return Err(e);
            },
            Ok(_) => {},
        }
        let ghost pixel = buf@;
        append(out, buf.as_slice());
        proof {
            assert(rest.skip(size as int) =~= stream@.skip(pos + size));
            lemma_prepend_twice(
                acc,
                pixel,
                spec_units(
                    m,
                    indexed,
                    size as nat,
                    stream@.skip(pos + size),
                    (count - k - 1) as nat,
                ),
            );
            acc = acc + pixel;
            assert(k * size + size == (k + 1) * size) by (nonlinear_arith);
        }
        pos += size;
        k += 1;
    }
    Ok(pos)
}

/// Decodes `count` pixels from the run-length packets of `stream`.
fn decode_rle(
    map: &Option<ColorMap>,
    indexed: bool,
    stream: &[u8],
    count: usize,
    buf: &mut Vec<u8>,
) -> (res: Result<Vec<u8>, Error>)
    requires
        old(buf)@.len() >= 1,
        indexed ==> (map matches Some(m) ==> m.bytes_per_entry == old(buf)@.len()),
    ensures
        match spec_rle(spec_map(*map), indexed, old(buf)@.len(), stream@, count as nat) {
            Ok(pixels) => res matches Ok(v) && v@ == pixels,
            Err(e) => res == Err::<Vec<u8>, Error>(e),
        },
{
    let size: usize = buf.len();
    let ghost m = spec_map(*map);
    let ghost all = spec_rle(m, indexed, size as nat, stream@, count as nat);
    let mut out: Vec<u8> = Vec::new();
    let mut pos: usize = 0;
    let mut remaining: usize = count;
    assert(stream@.skip(0) =~= stream@);
    while remaining > 0
        invariant
            remaining <= count,
            size == buf@.len(),
            size == old(buf)@.len(),
            size >= 1,
            pos <= stream.len(),
            m == spec_map(*map),
            indexed ==> (map matches Some(cm) ==> cm.bytes_per_entry == size),
            all == spec_rle(m, indexed, size as nat, stream@, count as nat),
            all == spec_prepend(
                out@,
                spec_rle(m, indexed, size as nat, stream@.skip(pos as int), remaining as nat),
            ),
        decreases remaining,
    {
        let ghost rest = stream@.skip(pos as int);
        if pos >= stream.len() {
            return Err(Error::FileCannotRead);
        }
        let packet: u8 = stream[pos];
        assert(packet & 0x7f <= 0x7f) by (bit_vector);
        let announced: usize = (packet & 0x7f) as usize + 1;
        let taken: usize = if announced < remaining {
            announced
        } else {
            remaining
        };
        let ghost body = rest.skip(1);
        let ghost before = out@;
        assert(body =~= stream@.skip(pos + 1));
        pos += 1;
        if packet & 0x80 != 0 {
            if stream.len() - pos < size {
                return Err(Error::FileCannotRead);
            }
            assert(body.take(size as int) =~= stream@.subrange(pos as int, pos + size));
            match read_pixel(map, indexed, stream, pos, buf) {
                Err(e) => {
                    return Err(e);
                },
                Ok(_) => {},
            }
            pos += size;
            let mut k: usize = 0;
            while k < taken
                invariant
                    k <= taken,
                    size == buf@.len(),
                    out@ == before + spec_repeat(buf@, k as nat),
                decreases taken - k,
            {
                append(&mut out, buf.as_slice());
                k += 1;
            }
            proof {
                assert(body.skip(size as int) =~= stream@.skip(pos as int));
                lemma_prepend_twice(
                    before,
                    spec_repeat(buf@, taken as nat),
                    spec_rle(
                        m,
                        indexed,
                        size as nat,
                        stream@.skip(pos as int),
                        (remaining - taken) as nat,
                    ),
                );
            }
        } else {
            let ghost units = spec_units(m, indexed, size as nat, body, taken as nat);
            match decode_units(map, indexed, stream, pos, taken, buf, &mut out) {
                Err(e) => {
                    return Err(e);
                },
                Ok(next) => {
                    pos = next;
                },
            }
            proof {
                assert(body.skip(taken * size) =~= stream@.skip(pos as int));
                lemma_prepend_twice(
                    before,
                    units->Ok_0,
                    spec_rle(
                        m,
                        indexed,
                        size as nat,
                        stream@.skip(pos as int),
                        (remaining - taken) as nat,
                    ),
                );
            }
        }
        remaining -= taken;
    }
    Ok(out)
}

/// Decodes the pixel data of an image from `stream`, the bytes that follow
/// the header and the palette block. `map` is the palette of a color-mapped
/// image. The pixels come back in stream order; nothing is mirrored here.
///
/// The header is checked for its image type and pixel format first, then
/// the palette's entry width against the pixel width, then the size of the
/// buffer against what the machine can address. After that every error
/// comes from the stream: `FileCannotRead` where it ends too early,
/// `ColorMapIndexFailed` where an index names no palette entry.
pub fn decode_data(header: &TgaHeader, map: &Option<ColorMap>, stream: &[u8]) -> (res: Result<
    Vec<u8>,
    Error,
>)
    ensures
        match spec_decode_data(*header, spec_map(*map), stream@) {
            Ok(pixels) => res matches Ok(v) && v@ == pixels,
            Err(e) => res == Err::<Vec<u8>, Error>(e),
        },
{
    let kind: TgaImageType = match header.is_supported_image_type() {
        Err(e) => {
            return Err(e);
        },
        Ok(kind) => kind,
    };
    let size: usize = match header.get_pixel_size() {
        Err(e) => {
            return Err(e);
        },
        Ok(size) => size as usize,
    };
    let indexed: bool = match kind {
        TgaImageType::ColorMapped | TgaImageType::RLEColorMapped => true,
        _ => false,
    };
    if indexed {
        match map {
            Some(m) => {
                if m.bytes_per_entry as usize != size {
                    return Err(Error::UnsupportedPixelFormat);
                }
            },
            None => {},
        }
    }
    assert(header.image_width * header.image_height <= 0xffff * 0xffff) by (nonlinear_arith)
        requires
            header.image_width <= 0xffff,
            header.image_height <= 0xffff,
    ;
    let count: u64 = header.image_width as u64 * header.image_height as u64;
    assert(count * size <= 0xffff * 0xffff * 4) by (nonlinear_arith)
        requires
            count <= 0xffff * 0xffff,
            size <= 4,
    ;
    let total: u64 = count * size as u64;
    if total > usize::MAX as u64 {
        return Err(Error::ErrorOutOfMemory);
    }
    assert(count <= total) by (nonlinear_arith)
        requires
            total == count * size,
            size >= 1,
    ;
    let count: usize = count as usize;
    let total: usize = total as usize;
    match kind {
        TgaImageType::TrueColor | TgaImageType::GrayScale => {
            if stream.len() < total {
                return Err(Error::FileCannotRead);
            }
            Ok(slice_to_vec(slice_subrange(stream, 0, total)))
        },
        TgaImageType::ColorMapped => {
            let mut buf: Vec<u8> = scratch(size);
            let mut out: Vec<u8> = Vec::new();
            assert(stream@.skip(0) =~= stream@);
            match decode_units(map, true, stream, 0, count, &mut buf, &mut out) {
                Err(e) => Err(e),
                Ok(_) => Ok(out),
            }
        },
        _ => {
            let mut buf: Vec<u8> = scratch(size);
            decode_rle(map, indexed, stream, count, &mut buf)
        },
    }
}

} // verus!
