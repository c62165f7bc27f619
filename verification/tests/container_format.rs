//! The packed-texture container: exact header bytes, the BGRA body order, and
//! the encode/decode round trip.

use texkit::encode::{decode_tex, encode_tex};
use texkit::pixel::{Pixel, PixelBuffer};

fn px(r: u8, g: u8, b: u8, a: u8) -> Pixel {
    Pixel { r, g, b, a }
}

#[test]
fn header_and_body_are_exact() {
    let b = PixelBuffer { width: 1, height: 1, pixels: vec![px(1, 2, 3, 4)] };
    let bytes = encode_tex(&b);
    let mut expected: Vec<u8> = Vec::new();
    expected.extend_from_slice(&0x00800000u32.to_le_bytes());
    expected.extend_from_slice(&0x1450u32.to_le_bytes());
    expected.extend_from_slice(&1u16.to_le_bytes()); // width
    expected.extend_from_slice(&1u16.to_le_bytes()); // height
    expected.extend_from_slice(&0u16.to_le_bytes());
    expected.extend_from_slice(&1u16.to_le_bytes()); // mip/array count
    for v in [0u32, 1, 2] {
        expected.extend_from_slice(&v.to_le_bytes());
    }
    for v in [80u32, 0, 0, 0, 0, 0, 0, 0, 0, 0, 0, 0, 0] {
        expected.extend_from_slice(&v.to_le_bytes());
    }
    expected.extend_from_slice(&[3, 2, 1, 4]); // B, G, R, A
    assert_eq!(bytes, expected);
    assert_eq!(bytes.len(), 84);
}

#[test]
fn round_trip_recovers_the_image() {
    let pixels: Vec<Pixel> = (0..6).map(|i| px(i as u8, 10 + i as u8, 20 + i as u8, 200)).collect();
    let b = PixelBuffer { width: 3, height: 2, pixels: pixels.clone() };
    let bytes = encode_tex(&b);
    let back = decode_tex(&bytes).expect("a well-formed container decodes");
    assert_eq!(back.width, 3);
    assert_eq!(back.height, 2);
    assert_eq!(back.pixels, pixels);
}

#[test]
fn decode_rejects_malformed_containers() {
    assert!(decode_tex(&vec![0u8; 16]).is_none());
    let b = PixelBuffer { width: 2, height: 2, pixels: vec![px(0, 0, 0, 0); 4] };
    let mut bytes = encode_tex(&b);
    bytes[4] = 0xFF; // corrupt the second format tag
    assert!(decode_tex(&bytes).is_none());
    let mut truncated = encode_tex(&b);
    truncated.pop();
    assert!(decode_tex(&truncated).is_none());
}
