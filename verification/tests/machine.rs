use t1gars::decode_data;
use t1gars::ColorMap;
use t1gars::Error;
use t1gars::Tga;
use t1gars::TgaHeader;

/// A small generator of numbers that look random and are the same on every
/// run.
struct Numbers {
    state: u64,
}

impl Numbers {
    fn next(&mut self) -> u64 {
        self.state = self.state.wrapping_mul(6364136223846793005).wrapping_add(1442695040888963407);
        self.state >> 33
    }

    fn below(&mut self, limit: u64) -> u64 {
        self.next() % limit
    }
}

/// What a decoder that failed has to say.
#[derive(Debug, PartialEq)]
enum Failure {
    CannotRead,
    IndexFailed,
}

/// The packet protocol, pixel by pixel: how many pixels are left to decode,
/// how many are left in the current packet, and whether that packet is a
/// run.
fn packet_machine(
    stream: &[u8],
    size: usize,
    count: usize,
    palette: Option<&ColorMap>,
) -> Result<Vec<u8>, Failure> {
    let mut out: Vec<u8> = Vec::new();
    let mut pos: usize = 0;
    let mut pixels_remaining: usize = count;
    let mut packet_count: usize = 0;
    let mut is_run_length_packet = false;
    let mut pixel: Vec<u8> = vec![0; size];
    while pixels_remaining > 0 {
        let mut fresh = false;
        if packet_count == 0 {
            if pos >= stream.len() {
                return Err(Failure::CannotRead);
            }
            is_run_length_packet = stream[pos] & 0x80 != 0;
            packet_count = (stream[pos] & 0x7F) as usize + 1;
            pos += 1;
            fresh = true;
        }
        if !is_run_length_packet || fresh {
            if stream.len() - pos < size {
                return Err(Failure::CannotRead);
            }
            pixel.copy_from_slice(&stream[pos..pos + size]);
            pos += size;
            if let Some(map) = palette {
                let at: usize = (pixel[0] as u16).wrapping_sub(map.first_index) as usize;
                if at >= map.entry_count as usize {
                    return Err(Failure::IndexFailed);
                }
                pixel.copy_from_slice(&map.pixels[at * size..(at + 1) * size]);
            }
        }
        out.extend_from_slice(&pixel);
        packet_count -= 1;
        pixels_remaining -= 1;
    }
    Ok(out)
}

fn outcome(result: Result<Vec<u8>, Error>) -> Result<Vec<u8>, Failure> {
    match result {
        Ok(pixels) => Ok(pixels),
        Err(Error::FileCannotRead) => Err(Failure::CannotRead),
        Err(Error::ColorMapIndexFailed) => Err(Failure::IndexFailed),
        Err(other) => panic!("{:?}", other),
    }
}

fn header(kind: u8, entry_size: u8, width: u16, height: u16, depth: u8) -> TgaHeader {
    let mut header = TgaHeader::new();
    header.image_type = kind;
    header.map_entry_size = entry_size;
    header.image_width = width;
    header.image_height = height;
    header.pixel_depth = depth;
    header
}

#[test]
fn run_length_decoding_follows_the_packet_machine() {
    let mut numbers = Numbers { state: 7 };
    let mut decoded: usize = 0;
    let mut failed: usize = 0;
    for round in 0..4000u64 {
        let (kind, depth, size): (u8, u8, usize) = match round % 5 {
            0 => (11, 8, 1),
            1 => (11, 16, 2),
            2 => (10, 16, 2),
            3 => (10, 24, 3),
            _ => (10, 32, 4),
        };
        let width: u16 = numbers.below(12) as u16 + 1;
        let height: u16 = numbers.below(12) as u16 + 1;
        let len: usize = numbers.below(200) as usize;
        let mut stream: Vec<u8> = Vec::new();
        for _ in 0..len {
            let byte: u8 = if numbers.below(3) == 0 {
                numbers.below(256) as u8
            } else {
                (numbers.below(4) as u8) | ((numbers.below(2) as u8) << 7)
            };
            stream.push(byte);
        }
        let count: usize = width as usize * height as usize;
        let expected = packet_machine(&stream, size, count, None);
        let got = outcome(decode_data(&header(kind, 0, width, height, depth), &None, &stream));
        if expected.is_ok() {
            decoded += 1;
        } else {
            failed += 1;
        }
        assert_eq!(got, expected);
    }
    assert!(decoded > 100);
    assert!(failed > 100);
}

#[test]
fn run_length_palette_decoding_follows_the_packet_machine() {
    let mut numbers = Numbers { state: 11 };
    let mut decoded: usize = 0;
    let mut out_of_palette: usize = 0;
    for round in 0..4000u64 {
        let (entry_size, size): (u8, usize) = match round % 4 {
            0 => (15, 2),
            1 => (16, 2),
            2 => (24, 3),
            _ => (32, 4),
        };
        let first_index: u16 = numbers.below(4) as u16;
        let entry_count: u16 = numbers.below(12) as u16 + 4;
        let mut table: Vec<u8> = Vec::new();
        for _ in 0..entry_count as usize * size {
            table.push(numbers.below(256) as u8);
        }
        let map = ColorMap {
            first_index,
            entry_count,
            bytes_per_entry: size as u8,
            pixels: table,
        };
        let width: u16 = numbers.below(6) as u16 + 1;
        let height: u16 = numbers.below(6) as u16 + 1;
        let len: usize = numbers.below(160) as usize;
        let mut stream: Vec<u8> = Vec::new();
        for _ in 0..len {
            let byte: u8 = if numbers.below(2) == 0 {
                numbers.below(18) as u8
            } else {
                (numbers.below(4) as u8) | ((numbers.below(2) as u8) << 7)
            };
            stream.push(byte);
        }
        let count: usize = width as usize * height as usize;
        let expected = packet_machine(&stream, size, count, Some(&map));
        match expected {
            Ok(_) => decoded += 1,
            Err(Failure::IndexFailed) => out_of_palette += 1,
            Err(Failure::CannotRead) => {},
        }
        let got = outcome(decode_data(
            &header(9, entry_size, width, height, 8),
            &Some(map),
            &stream,
        ));
        assert_eq!(got, expected);
    }
    assert!(decoded > 20);
    assert!(out_of_palette > 20);
}

#[test]
fn mirrors_follow_rows_and_columns() {
    let mut numbers = Numbers { state: 3 };
    for round in 0..300u64 {
        let (kind, depth, size): (u8, u8, usize) = match round % 4 {
            0 => (3, 8, 1),
            1 => (3, 16, 2),
            2 => (2, 24, 3),
            _ => (2, 32, 4),
        };
        let width: usize = numbers.below(9) as usize + 1;
        let height: usize = numbers.below(9) as usize + 1;
        let mut bytes: Vec<u8> = vec![
            0,
            0,
            kind,
            0,
            0,
            0,
            0,
            0,
            0,
            0,
            0,
            0,
            width as u8,
            0,
            height as u8,
            0,
            depth,
            0,
        ];
        for _ in 0..width * height * size {
            bytes.push(numbers.below(256) as u8);
        }
        let plain = Tga::new(&bytes).unwrap();
        let mut across = Tga::new(&bytes).unwrap();
        across.image_flip_h().unwrap();
        let mut down = Tga::new(&bytes).unwrap();
        down.image_flip_v().unwrap();
        for y in 0..height {
            for x in 0..width {
                for b in 0..size {
                    let here: usize = (y * width + x) * size + b;
                    let opposite_column: usize = (y * width + (width - 1 - x)) * size + b;
                    let opposite_row: usize = ((height - 1 - y) * width + x) * size + b;
                    assert_eq!(across.data[here], plain.data[opposite_column]);
                    assert_eq!(down.data[here], plain.data[opposite_row]);
                }
            }
        }
        for (desc, expected) in [(0x10u8, &across.data), (0x20u8, &down.data)] {
            bytes[17] = desc;
            assert_eq!(&Tga::new(&bytes).unwrap().data, expected);
        }
    }
}
