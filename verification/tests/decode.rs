use t1gars::decode_data;
use t1gars::ColorMap;
use t1gars::Error;
use t1gars::TgaHeader;

fn header(kind: u8, entry_size: u8, width: u16, height: u16, depth: u8) -> TgaHeader {
    let mut header = TgaHeader::new();
    header.image_type = kind;
    header.map_entry_size = entry_size;
    header.image_width = width;
    header.image_height = height;
    header.pixel_depth = depth;
    header
}

fn palette_of_three() -> Option<ColorMap> {
    Some(ColorMap {
        first_index: 0,
        entry_count: 3,
        bytes_per_entry: 3,
        pixels: vec![10, 11, 12, 20, 21, 22, 30, 31, 32],
    })
}

#[test]
fn run_packet_repeats_one_pixel() {
    let stream: Vec<u8> = vec![0x83, 0x10];
    let pixels = decode_data(&header(11, 0, 4, 1, 8), &None, &stream).unwrap();
    assert_eq!(pixels, vec![0x10, 0x10, 0x10, 0x10]);
}

#[test]
fn raw_packet_stores_every_pixel() {
    let stream: Vec<u8> = vec![0x02, 1, 2, 3];
    let pixels = decode_data(&header(11, 0, 3, 1, 8), &None, &stream).unwrap();
    assert_eq!(pixels, vec![1, 2, 3]);
}

#[test]
fn packets_follow_one_another() {
    let stream: Vec<u8> = vec![0x81, 0xA0, 0xA1, 0x01, 1, 2, 3, 4, 0x80, 0xB0, 0xB1];
    let pixels = decode_data(&header(10, 0, 5, 1, 16), &None, &stream).unwrap();
    assert_eq!(pixels, vec![0xA0, 0xA1, 0xA0, 0xA1, 1, 2, 3, 4, 0xB0, 0xB1]);
}

#[test]
fn longest_run_packet_gives_128_pixels() {
    let stream: Vec<u8> = vec![0xFF, 9];
    let pixels = decode_data(&header(11, 0, 128, 1, 8), &None, &stream).unwrap();
    assert_eq!(pixels, vec![9u8; 128]);
}

#[test]
fn last_packet_stops_with_the_image() {
    let run: Vec<u8> = vec![0x87, 5];
    assert_eq!(decode_data(&header(11, 0, 3, 1, 8), &None, &run).unwrap(), vec![5, 5, 5]);
    let raw: Vec<u8> = vec![0x07, 1, 2];
    assert_eq!(decode_data(&header(11, 0, 2, 1, 8), &None, &raw).unwrap(), vec![1, 2]);
}

#[test]
fn bytes_behind_the_image_are_ignored() {
    let stream: Vec<u8> = vec![0x80, 1, 0x80, 2, 0xFF, 0xFF];
    assert_eq!(decode_data(&header(11, 0, 2, 1, 8), &None, &stream).unwrap(), vec![1, 2]);
    let plain: Vec<u8> = vec![1, 2, 3, 4];
    assert_eq!(decode_data(&header(3, 0, 3, 1, 8), &None, &plain).unwrap(), vec![1, 2, 3]);
}

#[test]
fn same_stream_decodes_to_the_same_pixels() {
    let stream: Vec<u8> = vec![0x81, 0xA0, 0xA1, 0xA2, 0x01, 1, 2, 3, 4, 5, 6, 0x85, 7, 8, 9];
    let h = header(10, 0, 3, 2, 24);
    let first = decode_data(&h, &None, &stream).unwrap();
    let second = decode_data(&h, &None, &stream).unwrap();
    assert_eq!(first, second);
    assert_eq!(
        first,
        vec![0xA0, 0xA1, 0xA2, 0xA0, 0xA1, 0xA2, 1, 2, 3, 4, 5, 6, 7, 8, 9, 7, 8, 9]
    );
}

#[test]
fn stream_that_ends_early_cannot_be_read() {
    let h = header(11, 0, 4, 1, 8);
    assert!(matches!(decode_data(&h, &None, &[]), Err(Error::FileCannotRead)));
    assert!(matches!(decode_data(&h, &None, &[0x83]), Err(Error::FileCannotRead)));
    assert!(matches!(decode_data(&h, &None, &[0x03, 1, 2, 3]), Err(Error::FileCannotRead)));
    assert!(matches!(decode_data(&h, &None, &[0x81, 1]), Err(Error::FileCannotRead)));
    let plain = header(2, 0, 2, 2, 24);
    assert!(matches!(decode_data(&plain, &None, &[0u8; 11]), Err(Error::FileCannotRead)));
    assert!(decode_data(&plain, &None, &[0u8; 12]).is_ok());
}

#[test]
fn plain_pixels_are_taken_as_they_are() {
    let stream: Vec<u8> = vec![1, 2, 3, 4, 5, 6, 7, 8, 9, 10, 11, 12];
    assert_eq!(decode_data(&header(2, 0, 2, 2, 24), &None, &stream).unwrap(), stream);
    assert_eq!(decode_data(&header(3, 0, 6, 1, 16), &None, &stream).unwrap(), stream);
    assert_eq!(decode_data(&header(2, 0, 1, 3, 32), &None, &stream).unwrap(), stream);
}

#[test]
fn indices_go_through_the_palette() {
    let stream: Vec<u8> = vec![2, 0xEE, 0xEE, 0, 0xEE, 0xEE, 1, 0xEE, 0xEE];
    let pixels = decode_data(&header(1, 24, 3, 1, 8), &palette_of_three(), &stream).unwrap();
    assert_eq!(pixels, vec![30, 31, 32, 10, 11, 12, 20, 21, 22]);
}

#[test]
fn run_length_indices_go_through_the_palette() {
    let stream: Vec<u8> = vec![0x81, 1, 0, 0, 0x01, 2, 0, 0, 0, 0, 0];
    let pixels = decode_data(&header(9, 24, 4, 1, 8), &palette_of_three(), &stream).unwrap();
    assert_eq!(pixels, vec![20, 21, 22, 20, 21, 22, 30, 31, 32, 10, 11, 12]);
}

#[test]
fn index_outside_the_palette_fails() {
    let h = header(1, 24, 2, 1, 8);
    let stream: Vec<u8> = vec![0, 0, 0, 3, 0, 0];
    assert!(matches!(
        decode_data(&h, &palette_of_three(), &stream),
        Err(Error::ColorMapIndexFailed)
    ));
    let rle = header(9, 24, 2, 1, 8);
    assert!(matches!(
        decode_data(&rle, &palette_of_three(), &[0x81, 3, 0, 0]),
        Err(Error::ColorMapIndexFailed)
    ));
    assert!(matches!(
        decode_data(&rle, &palette_of_three(), &[0x01, 2, 0, 0, 200, 0, 0]),
        Err(Error::ColorMapIndexFailed)
    ));
}

#[test]
fn color_mapped_image_without_palette_fails() {
    let h = header(1, 24, 1, 1, 8);
    assert!(matches!(decode_data(&h, &None, &[0, 0, 0]), Err(Error::ColorMapIndexFailed)));
    assert!(matches!(decode_data(&h, &None, &[0, 0]), Err(Error::FileCannotRead)));
}

#[test]
fn palette_entries_must_be_as_wide_as_pixels() {
    let h = header(1, 32, 1, 1, 8);
    assert!(matches!(
        decode_data(&h, &palette_of_three(), &[0, 0, 0, 0]),
        Err(Error::UnsupportedPixelFormat)
    ));
}

#[test]
fn palette_is_ignored_by_other_image_types() {
    let stream: Vec<u8> = vec![2, 1, 0];
    let pixels = decode_data(&header(3, 0, 3, 1, 8), &palette_of_three(), &stream).unwrap();
    assert_eq!(pixels, vec![2, 1, 0]);
}

#[test]
fn header_errors_come_first() {
    assert!(matches!(decode_data(&header(0, 0, 1, 1, 8), &None, &[1]), Err(Error::NoData)));
    assert!(matches!(
        decode_data(&header(4, 0, 1, 1, 8), &None, &[1]),
        Err(Error::UnsupportedImageType)
    ));
    assert!(matches!(
        decode_data(&header(2, 0, 1, 1, 8), &None, &[1]),
        Err(Error::UnsupportedPixelFormat)
    ));
    assert!(matches!(
        decode_data(&header(1, 24, 1, 1, 16), &None, &[1]),
        Err(Error::IllegalHeader)
    ));
}

#[test]
fn image_without_pixels_decodes_to_nothing() {
    assert_eq!(decode_data(&header(11, 0, 0, 7, 8), &None, &[]).unwrap(), Vec::<u8>::new());
    assert_eq!(decode_data(&header(2, 0, 7, 0, 24), &None, &[]).unwrap(), Vec::<u8>::new());
}
