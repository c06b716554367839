use vidya::app_icon::{decode_png_rgba, expand_rgb};
use vidya::icons::emoji_rgba;

/// 1×1 red RGB PNG (valid CRC).
const TINY_PNG: &[u8] = &[
    0x89, 0x50, 0x4e, 0x47, 0x0d, 0x0a, 0x1a, 0x0a, 0x00, 0x00, 0x00, 0x0d, 0x49, 0x48, 0x44,
    0x52, 0x00, 0x00, 0x00, 0x01, 0x00, 0x00, 0x00, 0x01, 0x08, 0x02, 0x00, 0x00, 0x00, 0x90,
    0x77, 0x53, 0xde, 0x00, 0x00, 0x00, 0x0c, 0x49, 0x44, 0x41, 0x54, 0x78, 0x9c, 0x63, 0xf8,
    0xcf, 0xc0, 0x00, 0x00, 0x03, 0x01, 0x01, 0x00, 0xc9, 0xfe, 0x92, 0xef, 0x00, 0x00, 0x00,
    0x00, 0x49, 0x45, 0x4e, 0x44, 0xae, 0x42, 0x60, 0x82,
];

#[test]
fn icon_data_from_tiny_png() {
    let (width, height, rgba) = decode_png_rgba(TINY_PNG).expect("decode");
    assert_eq!(width, 1);
    assert_eq!(height, 1);
    assert_eq!(rgba.len(), 4);
}

#[test]
fn tiny_png_is_opaque_red() {
    let (_, _, rgba) = decode_png_rgba(TINY_PNG).unwrap();
    assert_eq!(rgba, vec![0xff, 0x00, 0x00, 0xff]);
    let (w, h, rgba) = emoji_rgba(TINY_PNG).unwrap();
    assert_eq!((w, h), (1, 1));
    assert_eq!(rgba, vec![0xff, 0x00, 0x00, 0xff]);
}

#[test]
fn bytes_that_are_not_png_fail_in_the_header() {
    let err = decode_png_rgba(b"not a png").err().unwrap();
    assert!(err.message().starts_with("png header: "));
    assert!(emoji_rgba(b"not a png").is_none());
}

#[test]
fn rgb_widens_to_opaque_rgba() {
    assert_eq!(expand_rgb(&vec![1, 2, 3, 4, 5, 6, 7]), vec![1, 2, 3, 255, 4, 5, 6, 255]);
    assert!(expand_rgb(&vec![1, 2]).is_empty());
}
