use romhack::compiler::texture::banner::Banner;
use romhack::compiler::texture::bti::{Format, Image};
use romhack::compiler::texture::image::{decode_rgb5a3, encode_rgb5a3};
use romhack::compiler::texture::rgb5a3::{from_rgba, to_rgba};

#[test]
fn rgb5a3_opaque_pixel_scales_by_eight() {
    assert_eq!(to_rgba(&[0xfc, 0x00]), [0xf8, 0x00, 0x00, 0xff]);
    assert_eq!(to_rgba(&[0x80, 0x1f]), [0x00, 0x00, 0xf8, 0xff]);
}

#[test]
fn rgb5a3_translucent_pixel_scales_by_seventeen() {
    assert_eq!(to_rgba(&[0x7f, 0xff]), [0xff, 0xff, 0xff, 0xe0]);
    assert_eq!(to_rgba(&[0x12, 0x34]), [0x22, 0x33, 0x44, 0x20]);
}

#[test]
fn rgb5a3_encoding_rounds_and_saturates() {
    assert_eq!(from_rgba(&[0xff, 0xff, 0xff, 0xff]), [0xff, 0xff]);
    assert_eq!(from_rgba(&[0x22, 0x33, 0x44, 0x20]), [0x12, 0x34]);
    assert_eq!(from_rgba(&[0xfc, 0x03, 0x00, 0xf0]), [0xfc, 0x00]);
}

#[test]
fn rgb5a3_round_trip_for_every_value() {
    for v in 0..=0xffffu32 {
        let bytes = [(v >> 8) as u8, v as u8];
        assert_eq!(from_rgba(&to_rgba(&bytes)), bytes, "value {:04x}", v);
    }
}

#[test]
fn tiled_texture_decodes_in_raster_order() {
    let mut src = vec![0u8; 8 * 4 * 2];
    for k in 0..32 {
        src[2 * k] = 0x80;
        src[2 * k + 1] = k as u8;
    }
    let mut rgba = vec![0u8; 8 * 4 * 4];
    decode_rgb5a3(&src, &mut rgba, (8, 4));
    // pixel (5, 1) lies in the second tile, row 1, column 1: chunk 16 + 4 + 1
    let p = 4 * (1 * 8 + 5);
    assert_eq!(&rgba[p..p + 4], &to_rgba(&[0x80, 21])[..]);
    let mut back = vec![0u8; 8 * 4 * 2];
    encode_rgb5a3(&rgba, &mut back, (8, 4));
    assert_eq!(back, src);
}

#[test]
fn texture_banner_round_trip() {
    let mut data = vec![0u8; 0x1960];
    data[..4].copy_from_slice(b"BNR1");
    for k in 0..3072 {
        data[0x20 + 2 * k] = (k % 251) as u8;
        data[0x20 + 2 * k + 1] = (k / 13) as u8;
    }
    data[0x1820..0x1823].copy_from_slice(b"TWW");
    let banner = Banner::try_parse(false, &data).unwrap();
    assert_eq!(banner.game_name, "TWW");
    let out = banner.to_bytes(false);
    assert_eq!(&out[..0x1820], &data[..0x1820]);
    assert!(Banner::try_parse(false, &data[..100]).is_none());
}

#[test]
fn bti_file_size_counts_header_and_images() {
    let image = Image {
        image_format: Format::RGB5A3,
        enable_alpha: true,
        width: 4,
        height: 4,
        wrap_s: 0,
        wrap_t: 0,
        palette_format: 0,
        palette_len: 0,
        encoded_images: vec![vec![0; 32], vec![0; 8], vec![]],
    };
    assert_eq!(image.file_size(), 0x20 + 40);
    assert_eq!(Format::RGB5A3.code(), 0x05);
    assert_eq!(Format::CMPR.code(), 0x0E);
    assert_eq!(Format::C4.code(), 0x08);
}

#[test]
fn rgba_round_trip_stays_close() {
    for &(r, g, b, a) in &[(255u8, 0u8, 251u8, 255u8), (13, 200, 77, 0xF0), (255, 9, 128, 0xEF), (0, 255, 17, 0x10)] {
        let o = to_rgba(&from_rgba(&[r, g, b, a]));
        for (x, y) in [(o[0], r), (o[1], g), (o[2], b)].iter() {
            assert!((*x as i32 - *y as i32).abs() <= 8);
        }
        if a >= 0xF0 {
            assert_eq!(o[3], 0xFF);
        } else {
            assert!((o[3] as i32 - a as i32).abs() <= 16);
        }
    }
}

#[test]
fn zero_sized_images_are_left_alone() {
    let src: Vec<u8> = vec![];
    let mut dst = vec![9u8; 8];
    decode_rgb5a3(&src, &mut dst, (0, 4));
    encode_rgb5a3(&src, &mut dst, (8, 0));
    assert_eq!(dst, vec![9u8; 8]);
}

#[test]
fn tiles_encoded_and_decoded_give_the_image_back() {
    let (w, h) = (8usize, 4usize);
    let image: Vec<u8> = (0..(4 * w * h) as u32).map(|i| (i * 37 % 256) as u8).collect();
    let mut texture = vec![0u8; 4 * w * h];
    romhack::compiler::texture::image::encode(&image, &mut texture, (w, h), 4, |p: &[u8]| p[..4].to_vec());
    assert_ne!(texture, image);
    let mut out = vec![0u8; 4 * w * h];
    romhack::compiler::texture::image::decode(&texture, &mut out, (w, h), 4, |p: &[u8]| [p[0], p[1], p[2], p[3]]);
    assert_eq!(out, image);
}
