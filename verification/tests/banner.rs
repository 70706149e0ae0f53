use romhack::compiler::banner::{Banner, BANNER_LEN, OFFSET_GAME_NAME, OFFSET_IMAGE};

fn a1rgb5_to_rgba_f32(x: u8, y: u8) -> [u8; 4] {
    let a = x >> 7;
    let r = (x >> 2) & 0b11111;
    let g = ((x & 0b11) << 3) | (y >> 5);
    let b = y & 0b11111;
    let r = (r as f32 * (255.0 / 31.0)) as u8;
    let g = (g as f32 * (255.0 / 31.0)) as u8;
    let b = (b as f32 * (255.0 / 31.0)) as u8;
    [r, g, b, a * 255]
}

fn rgba_to_a1rgb5_f32(r: u8, g: u8, b: u8, a: u8) -> [u8; 2] {
    let r = (r as f32 * (31.0 / 255.0)).round() as u8;
    let g = (g as f32 * (31.0 / 255.0)).round() as u8;
    let b = (b as f32 * (31.0 / 255.0)).round() as u8;
    let a = (a >= 128) as u8;
    [(a << 7) | (r << 2) | (g >> 3), (g << 5) | b]
}

/// The index of the tile chunk that holds pixel (x, y).
fn chunk_of(x: usize, y: usize) -> usize {
    (((y / 4) * 24 + x / 4) * 4 + y % 4) * 4 + x % 4
}

fn banner_file(magic: &[u8; 4], pixels: &dyn Fn(usize) -> (u8, u8)) -> Vec<u8> {
    let mut data = vec![0u8; BANNER_LEN];
    data[..4].copy_from_slice(magic);
    for k in 0..3072 {
        let (x, y) = pixels(k);
        data[OFFSET_IMAGE + 2 * k] = x;
        data[OFFSET_IMAGE + 2 * k + 1] = y;
    }
    data[OFFSET_GAME_NAME..OFFSET_GAME_NAME + 4].copy_from_slice(b"Zeld");
    data
}

#[test]
fn a1rgb5_pixels_decode_as_the_float_formula_gives_for_every_value() {
    for part in 0..22usize {
        let value = |k: usize| {
            let v = (part * 3072 + k) as u32 & 0xffff;
            ((v >> 8) as u8, v as u8)
        };
        let data = banner_file(b"BNR1", &value);
        let banner = Banner::try_parse(false, &data).expect("a valid banner");
        for y in 0..32 {
            for x in 0..96 {
                let (hi, lo) = value(chunk_of(x, y));
                let expected = a1rgb5_to_rgba_f32(hi, lo);
                let p = 4 * (y * 96 + x);
                assert_eq!(&banner.image[p..p + 4], &expected[..], "pixel {:02x}{:02x}", hi, lo);
            }
        }
    }
}

#[test]
fn rgba_pixels_encode_as_the_float_formula_gives() {
    let mut banner = Banner::try_parse(false, &banner_file(b"BNR2", &|_| (0, 0))).unwrap();
    for i in 0..3072usize {
        let v = (i % 256) as u8;
        let w = (i / 12) as u8;
        banner.image[4 * i..4 * i + 4].copy_from_slice(&[v, w, v.wrapping_mul(7), w.wrapping_add(v)]);
    }
    let data = banner.to_bytes(false);
    for y in 0..32 {
        for x in 0..96 {
            let p = 4 * (y * 96 + x);
            let px = &banner.image[p..p + 4];
            let expected = rgba_to_a1rgb5_f32(px[0], px[1], px[2], px[3]);
            let k = chunk_of(x, y);
            assert_eq!(&data[OFFSET_IMAGE + 2 * k..OFFSET_IMAGE + 2 * k + 2], &expected[..]);
        }
    }
}

#[test]
fn banner_fields_are_read() {
    let data = banner_file(b"BNR1", &|_| (0x80, 0x00));
    let banner = Banner::try_parse(false, &data).unwrap();
    assert_eq!(&banner.magic, b"BNR1");
    assert_eq!(banner.game_name, "Zeld");
    assert_eq!(banner.developer_name, "");
    assert_eq!(&banner.image[0..4], &[0, 0, 0, 255]);
}

#[test]
fn banner_with_other_magic_is_refused() {
    let data = banner_file(b"BNR3", &|_| (0, 0));
    assert!(Banner::try_parse(false, &data).is_none());
}

#[test]
fn short_banner_is_refused() {
    let data = banner_file(b"BNR1", &|_| (0, 0));
    assert!(Banner::try_parse(false, &data[..BANNER_LEN - 1]).is_none());
}

#[test]
fn banner_text_that_is_not_utf8_is_refused() {
    let mut data = banner_file(b"BNR1", &|_| (0, 0));
    data[OFFSET_GAME_NAME] = 0xff;
    assert!(Banner::try_parse(false, &data).is_none());
}

#[test]
fn banner_round_trip_keeps_picture_and_texts() {
    let data = banner_file(b"BNR2", &|k| ((k % 256) as u8 | 0x80, (k / 7) as u8));
    let banner = Banner::try_parse(false, &data).unwrap();
    let out = banner.to_bytes(false);
    assert_eq!(&out[..OFFSET_GAME_NAME], &data[..OFFSET_GAME_NAME]);
    let again = Banner::try_parse(false, &out).unwrap();
    assert_eq!(again.game_name, "Zeld");
    assert_eq!(&again.image[..], &banner.image[..]);
}

#[test]
fn japanese_banner_texts_use_shift_jis() {
    let mut banner = Banner::try_parse(false, &banner_file(b"BNR1", &|_| (0, 0))).unwrap();
    banner.game_name = "ゼルダ".to_string();
    let out = banner.to_bytes(true);
    assert_eq!(&out[OFFSET_GAME_NAME..OFFSET_GAME_NAME + 6], &[0x83, 0x5b, 0x83, 0x8b, 0x83, 0x5f]);
    let again = Banner::try_parse(true, &out).unwrap();
    assert_eq!(again.game_name, "ゼルダ");
}

#[test]
fn written_texts_are_read_back() {
    let mut banner = Banner::try_parse(false, &banner_file(b"BNR1", &|_| (0, 0))).unwrap();
    banner.game_name = "Zelda: ゼルダ".to_string();
    banner.developer_name = "Nintendo".to_string();
    banner.full_game_name = "The Legend of Zelda — The Wind Waker".to_string();
    banner.full_developer_name = "Nintendo EAD".to_string();
    banner.game_description = "Sail the Great Sea.".to_string();
    let again = Banner::try_parse(false, &banner.to_bytes(false)).unwrap();
    assert_eq!(&again.magic, b"BNR1");
    assert_eq!(again.game_name, banner.game_name);
    assert_eq!(again.developer_name, banner.developer_name);
    assert_eq!(again.full_game_name, banner.full_game_name);
    assert_eq!(again.full_developer_name, banner.full_developer_name);
    assert_eq!(again.game_description, banner.game_description);

    banner.game_name = "Wind Waker".to_string();
    banner.full_game_name = "The Wind Waker".to_string();
    let again = Banner::try_parse(true, &banner.to_bytes(true)).unwrap();
    assert_eq!(again.game_name, "Wind Waker");
    assert_eq!(again.full_game_name, "The Wind Waker");
    assert_eq!(again.game_description, banner.game_description);
}
