use langton::bmp::{encode, ColorMapEntry, RowOrder};

fn u32_at(b: &[u8], off: usize) -> u32 {
    u32::from_le_bytes([b[off], b[off + 1], b[off + 2], b[off + 3]])
}

fn i32_at(b: &[u8], off: usize) -> i32 {
    i32::from_le_bytes([b[off], b[off + 1], b[off + 2], b[off + 3]])
}

fn u16_at(b: &[u8], off: usize) -> u16 {
    u16::from_le_bytes([b[off], b[off + 1]])
}

fn two_colors() -> Vec<ColorMapEntry> {
    vec![ColorMapEntry { r: 0, g: 255, b: 0 }, ColorMapEntry { r: 0, g: 0, b: 255 }]
}

#[test]
fn round_trip_32_by_8_all_zero() {
    let data = vec![0u8; 32];
    let out = encode(32, 8, &two_colors(), RowOrder::BottomUp, &data);
    assert_eq!(out.len(), 94);
    assert_eq!(u32_at(&out, 10), 62);
    assert_eq!(&out[62..], &data[..]);
}

#[test]
fn header_fields() {
    let data = vec![0xAAu8; 32];
    let out = encode(32, 8, &two_colors(), RowOrder::BottomUp, &data);
    assert_eq!(&out[0..2], b"BM");
    assert_eq!(u32_at(&out, 2), 0);
    assert_eq!(u16_at(&out, 6), 0);
    assert_eq!(u16_at(&out, 8), 0);
    assert_eq!(u32_at(&out, 14), 40);
    assert_eq!(u32_at(&out, 18), 32);
    assert_eq!(i32_at(&out, 22), 8);
    assert_eq!(u16_at(&out, 26), 1);
    assert_eq!(u16_at(&out, 28), 1);
    assert_eq!(u32_at(&out, 30), 0);
    assert_eq!(u32_at(&out, 34), 32);
    assert_eq!(u32_at(&out, 38), 1000);
    assert_eq!(u32_at(&out, 42), 1000);
    assert_eq!(u32_at(&out, 46), 2);
    assert_eq!(u32_at(&out, 50), 0);
    assert_eq!(&out[54..62], &[0, 255, 0, 0, 255, 0, 0, 0]);
    assert_eq!(&out[62..], &data[..]);
}

#[test]
fn palette_entries_are_blue_green_red_zero() {
    let palette = vec![ColorMapEntry { r: 1, g: 2, b: 3 }];
    let out = encode(32, 1, &palette, RowOrder::BottomUp, &[9, 8, 7, 6]);
    assert_eq!(u32_at(&out, 46), 1);
    assert_eq!(&out[54..58], &[3, 2, 1, 0]);
    assert_eq!(&out[58..], &[9, 8, 7, 6]);
}

#[test]
fn length_and_offset_follow_palette_size() {
    for n in 0..=2usize {
        let palette: Vec<ColorMapEntry> = two_colors().into_iter().take(n).collect();
        let data = vec![1u8; 12];
        let out = encode(32, 3, &palette, RowOrder::TopDown, &data);
        assert_eq!(out.len(), 14 + 40 + 4 * n + 12);
        assert_eq!(u32_at(&out, 10) as usize, 14 + 40 + 4 * n);
        assert_eq!(u32_at(&out, 46) as usize, n);
    }
}

#[test]
fn empty_pixel_data() {
    let out = encode(0, 0, &[], RowOrder::BottomUp, &[]);
    assert_eq!(out.len(), 54);
    assert_eq!(u32_at(&out, 10), 54);
    assert_eq!(u32_at(&out, 34), 0);
    assert_eq!(u32_at(&out, 46), 0);
}

#[test]
fn height_sign_follows_row_order() {
    let down = encode(32, 5, &two_colors(), RowOrder::TopDown, &[0; 20]);
    assert_eq!(i32_at(&down, 22), -5);
    let up = encode(32, 5, &two_colors(), RowOrder::BottomUp, &[0; 20]);
    assert_eq!(i32_at(&up, 22), 5);
    let tall = encode(32, i32::MAX as u32, &[], RowOrder::TopDown, &[]);
    assert_eq!(i32_at(&tall, 22), -i32::MAX);
}
