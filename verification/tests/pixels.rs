use audioviz::pixel::from_u8_rgb;

#[test]
fn packs_channels_in_rgb_order() {
    assert_eq!(from_u8_rgb(0x12, 0x34, 0x56), 0x0012_3456);
}

#[test]
fn packs_black_and_white() {
    assert_eq!(from_u8_rgb(0, 0, 0), 0);
    assert_eq!(from_u8_rgb(255, 255, 255), 0x00FF_FFFF);
}

#[test]
fn packs_single_channels() {
    assert_eq!(from_u8_rgb(255, 0, 0), 0x00FF_0000);
    assert_eq!(from_u8_rgb(0, 255, 0), 0x0000_FF00);
    assert_eq!(from_u8_rgb(0, 0, 255), 0x0000_00FF);
}

#[test]
fn packed_value_is_the_weighted_sum() {
    for &(r, g, b) in &[(1u8, 2u8, 3u8), (200, 100, 50), (7, 0, 255)] {
        let expected = (r as u32) * 65536 + (g as u32) * 256 + (b as u32);
        assert_eq!(from_u8_rgb(r, g, b), expected);
    }
}
