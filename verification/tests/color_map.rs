use t1gars::ColorMap;
use t1gars::Error;

fn palette(first_index: u16, entry_count: u16, bytes_per_entry: u8) -> ColorMap {
    let len: usize = entry_count as usize * bytes_per_entry as usize;
    let mut pixels: Vec<u8> = Vec::new();
    for i in 0..len {
        pixels.push((i % 251) as u8 + 1);
    }
    ColorMap { first_index, entry_count, bytes_per_entry, pixels }
}

#[test]
fn entry_is_copied_into_the_buffer() {
    let map = palette(0, 4, 3);
    let mut buf: Vec<u8> = vec![0xAA, 0xBB, 0xCC];
    map.try_get_color(&mut buf, 2).unwrap();
    assert_eq!(buf, vec![7, 8, 9]);
    map.try_get_color(&mut buf, 0).unwrap();
    assert_eq!(buf, vec![1, 2, 3]);
}

#[test]
fn bytes_behind_the_entry_stay() {
    let map = palette(0, 4, 2);
    let mut buf: Vec<u8> = vec![0xAA, 0xBB, 0xCC, 0xDD];
    map.try_get_color(&mut buf, 3).unwrap();
    assert_eq!(buf, vec![7, 8, 0xCC, 0xDD]);
}

#[test]
fn index_counts_from_first_index() {
    let map = palette(10, 4, 2);
    let mut buf: Vec<u8> = vec![0, 0];
    map.try_get_color(&mut buf, 10).unwrap();
    assert_eq!(buf, vec![1, 2]);
    map.try_get_color(&mut buf, 13).unwrap();
    assert_eq!(buf, vec![7, 8]);
}

#[test]
fn last_index_resolves_and_the_next_fails() {
    for (first, count) in [(0u16, 1u16), (0, 256), (10, 4), (100, 1), (65000, 535), (65535, 1)] {
        let map = palette(first, count, 3);
        let mut buf: Vec<u8> = vec![0, 0, 0];
        let last: u16 = first.wrapping_add(count).wrapping_sub(1);
        assert!(map.try_get_color(&mut buf, last).is_ok());
        let at: usize = (count as usize - 1) * 3;
        assert_eq!(buf, map.pixels[at..at + 3].to_vec());
        let mut kept: Vec<u8> = vec![0x11, 0x22, 0x33];
        let past: u16 = first.wrapping_add(count);
        assert!(matches!(map.try_get_color(&mut kept, past), Err(Error::ColorMapIndexFailed)));
        assert_eq!(kept, vec![0x11, 0x22, 0x33]);
    }
}

#[test]
fn index_below_first_index_fails() {
    let map = palette(10, 4, 2);
    let mut buf: Vec<u8> = vec![0x55, 0x66];
    assert!(matches!(map.try_get_color(&mut buf, 9), Err(Error::ColorMapIndexFailed)));
    assert!(matches!(map.try_get_color(&mut buf, 0), Err(Error::ColorMapIndexFailed)));
    assert_eq!(buf, vec![0x55, 0x66]);
}

#[test]
fn empty_palette_has_no_entry() {
    let map = palette(0, 0, 3);
    let mut buf: Vec<u8> = vec![0, 0, 0];
    assert!(matches!(map.try_get_color(&mut buf, 0), Err(Error::ColorMapIndexFailed)));
    assert!(matches!(map.try_get_color(&mut buf, 65535), Err(Error::ColorMapIndexFailed)));
}

#[test]
fn entry_missing_from_a_short_table_fails() {
    let mut map = palette(0, 4, 3);
    map.pixels.truncate(10);
    let mut buf: Vec<u8> = vec![0, 0, 0];
    assert!(map.try_get_color(&mut buf, 2).is_ok());
    assert!(matches!(map.try_get_color(&mut buf, 3), Err(Error::ColorMapIndexFailed)));
}
