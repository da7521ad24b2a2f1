use handmade::bitmap::{
    debug_load_bmp, find_least_significant_set_bit, is_loadable_bmp, read_le_u32, ChannelShifts, LoadedBitmap,
};

fn bmp(width: u32, height: u32, masks: [u32; 3], compression: u32, pixels: &[u32]) -> Vec<u8> {
    let mut bytes = vec![0u8; 70];
    bytes[0] = b'B';
    bytes[1] = b'M';
    bytes[10..14].copy_from_slice(&70u32.to_le_bytes());
    bytes[18..22].copy_from_slice(&width.to_le_bytes());
    bytes[22..26].copy_from_slice(&height.to_le_bytes());
    bytes[30..34].copy_from_slice(&compression.to_le_bytes());
    bytes[54..58].copy_from_slice(&masks[0].to_le_bytes());
    bytes[58..62].copy_from_slice(&masks[1].to_le_bytes());
    bytes[62..66].copy_from_slice(&masks[2].to_le_bytes());
    for pixel in pixels {
        bytes.extend_from_slice(&pixel.to_le_bytes());
    }
    bytes
}

#[test]
fn lowest_set_bit_of_some_numbers() {
    assert_eq!(find_least_significant_set_bit(0), None);
    assert_eq!(find_least_significant_set_bit(1), Some(0));
    assert_eq!(find_least_significant_set_bit(2), Some(1));
    assert_eq!(find_least_significant_set_bit(3), Some(0));
    assert_eq!(find_least_significant_set_bit(0x00ff_0000), Some(16));
    assert_eq!(find_least_significant_set_bit(0xff00_0000), Some(24));
    assert_eq!(find_least_significant_set_bit(0x8000_0000), Some(31));
    assert_eq!(find_least_significant_set_bit(u32::MAX), Some(0));
    for bit in 0..32 {
        assert_eq!(find_least_significant_set_bit(1 << bit), Some(bit));
        assert_eq!(find_least_significant_set_bit(u32::MAX << bit), Some(bit));
    }
}

#[test]
fn little_endian_numbers_are_read_lowest_byte_first() {
    let bytes = [0x78u8, 0x56, 0x34, 0x12, 0xff, 0xff, 0xff, 0xff, 0x00];
    assert_eq!(read_le_u32(&bytes, 0), 0x1234_5678);
    assert_eq!(read_le_u32(&bytes, 1), 0xff12_3456);
    assert_eq!(read_le_u32(&bytes, 4), 0xffff_ffff);
    assert_eq!(read_le_u32(&bytes, 5), 0x00ff_ffff);
}

#[test]
fn channels_are_arranged_alpha_red_green_blue() {
    let same = ChannelShifts { alpha: 24, red: 16, green: 8, blue: 0 };
    assert_eq!(same.arrange(0x1122_3344), 0x1122_3344);
    let rotated = ChannelShifts { alpha: 0, red: 24, green: 16, blue: 8 };
    assert_eq!(rotated.arrange(0x1122_3344), 0x4411_2233);
    assert_eq!(rotated.arrange(0), 0);
    assert_eq!(rotated.arrange(0x0000_00ff), 0xff00_0000);
    assert_eq!(rotated.arrange(0xff00_0000), 0x00ff_0000);
}

#[test]
fn file_of_no_bytes_gives_no_bitmap() {
    assert!(debug_load_bmp(&[]).is_none());
    assert!(!is_loadable_bmp(&[]));
}

#[test]
fn bitmap_is_loaded_with_its_channels_in_order() {
    let pixels = [0x1122_3344u32, 0xaabb_ccdd, 0x0000_00ff, 0xff00_0000, 0, 0x0102_0304];
    let bytes = bmp(3, 2, [0xff00_0000, 0x00ff_0000, 0x0000_ff00], 3, &pixels);
    assert!(is_loadable_bmp(&bytes));
    let bitmap = debug_load_bmp(&bytes).unwrap();
    assert_eq!(bitmap.width(), 3);
    assert_eq!(bitmap.height(), 2);
    assert_eq!(bitmap.pixels(), &[0x4411_2233u32, 0xddaa_bbcc, 0xff00_0000, 0x00ff_0000, 0, 0x0401_0203][..]);
    let rows = bitmap.rows();
    assert_eq!(rows.len(), 2);
    assert_eq!(rows[0], &[0x00ff_0000u32, 0, 0x0401_0203][..]);
    assert_eq!(rows[1], &[0x4411_2233u32, 0xddaa_bbcc, 0xff00_0000][..]);
}

#[test]
fn bitmap_with_the_channels_in_order_is_loaded_as_it_is() {
    let pixels = [0x1122_3344u32, 0xaabb_ccdd];
    let bytes = bmp(1, 2, [0x00ff_0000, 0x0000_ff00, 0x0000_00ff], 3, &pixels);
    let bitmap = debug_load_bmp(&bytes).unwrap();
    assert_eq!(bitmap.pixels(), &pixels[..]);
    let empty = bmp(0, 5, [0x00ff_0000, 0x0000_ff00, 0x0000_00ff], 3, &[]);
    assert!(is_loadable_bmp(&empty));
    let bitmap = debug_load_bmp(&empty).unwrap();
    assert_eq!(bitmap.width(), 0);
    assert_eq!(bitmap.height(), 5);
    assert!(bitmap.pixels().is_empty());
}

#[test]
fn files_that_cannot_be_loaded_are_told_apart() {
    let masks = [0x00ff_0000u32, 0x0000_ff00, 0x0000_00ff];
    let good = bmp(2, 1, masks, 3, &[1, 2]);
    assert!(is_loadable_bmp(&good));
    assert!(!is_loadable_bmp(&good[..65]));
    assert!(!is_loadable_bmp(&good[..77]));
    assert!(!is_loadable_bmp(&bmp(2, 1, masks, 0, &[1, 2])));
    assert!(!is_loadable_bmp(&bmp(2, 1, [0, 0x0000_ff00, 0x0000_00ff], 3, &[1, 2])));
    assert!(!is_loadable_bmp(&bmp(2, 1, [0x00ff_0000, 0, 0x0000_00ff], 3, &[1, 2])));
    assert!(!is_loadable_bmp(&bmp(2, 1, [0x00ff_0000, 0x0000_ff00, 0], 3, &[1, 2])));
    assert!(!is_loadable_bmp(&bmp(2, 1, [0xffff_0000, 0x0000_ff00, 0x0000_00ff], 3, &[1, 2])));
    assert!(!is_loadable_bmp(&bmp(2, 2, masks, 3, &[1, 2, 3])));
    assert!(!is_loadable_bmp(&bmp(0x8000_0000, 0, masks, 3, &[])));
    assert!(!is_loadable_bmp(&bmp(0, 0xffff_ffff, masks, 3, &[])));
    assert!(!is_loadable_bmp(&bmp(0x7fff_ffff, 0x7fff_ffff, masks, 3, &[1])));
    let mut moved = good.clone();
    moved[10..14].copy_from_slice(&71u32.to_le_bytes());
    assert!(!is_loadable_bmp(&moved));
    moved[10..14].copy_from_slice(&0u32.to_le_bytes());
    assert!(is_loadable_bmp(&moved));
}

#[test]
fn rows_come_last_row_first() {
    let bitmap = LoadedBitmap::new(vec![1, 2, 3, 4, 5, 6], 2, 3);
    let rows = bitmap.rows();
    assert_eq!(rows.len(), 3);
    assert_eq!(rows[0], &[5u32, 6][..]);
    assert_eq!(rows[1], &[3u32, 4][..]);
    assert_eq!(rows[2], &[1u32, 2][..]);
    let flat = LoadedBitmap::new(Vec::new(), 4, 0);
    assert!(flat.rows().is_empty());
}
