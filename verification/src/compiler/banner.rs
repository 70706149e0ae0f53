//! The opening banner of a GameCube disc (`opening.bnr`): a 96x32 picture and
//! the texts that the system menu shows for the game.
use super::text_codec::{
    ascii_bytes, ascii_text, decode_text, decoded_text, encode_text, encoded_into, is_ascii_bytes,
    plain_bytes, writes_plainly,
};
use vstd::utf8::{encode_scalar, encode_utf8, encode_utf8_decode_utf8, encode_utf8_valid_utf8};
use super::texture::image::{
    cell, decode, decoded_pixel, encode, encoded_pixel, lemma_tile_chunk, lemma_tile_pixel,
    tile_chunk, tile_pixel, tiled,
};
use vstd::prelude::*;

verus! {

pub const COLUMNS: usize = 24;

pub const ROWS: usize = 8;

pub const WIDTH: usize = 96;

pub const HEIGHT: usize = 32;

pub const UNCOMPRESSED_BYTES_PER_PIXEL: usize = 4;

pub const COMPRESSED_BYTES_PER_PIXEL: usize = 2;

pub const UNCOMPRESSED_IMAGE_SIZE: usize = 12288;

pub const COMPRESSED_IMAGE_SIZE: usize = 6144;

pub const SHORT_TEXT_LEN: usize = 0x20;

pub const LONG_TEXT_LEN: usize = 0x40;

pub const DESCRIPTION_LEN: usize = 0x80;

pub const MAGIC_LEN: usize = 4;

pub const OFFSET_IMAGE: usize = 0x20;

pub const OFFSET_GAME_NAME: usize = 0x1820;

pub const OFFSET_DEVELOPER_NAME: usize = 0x1840;

pub const OFFSET_FULL_GAME_NAME: usize = 0x1860;

pub const OFFSET_FULL_DEVELOPER_NAME: usize = 0x18a0;

pub const OFFSET_GAME_DESCRIPTION: usize = 0x18e0;

pub const BANNER_LEN: usize = 0x1960;

/// A parsed banner; `image` holds the picture as RGBA, row by row.
pub struct Banner {
    pub magic: [u8; MAGIC_LEN],
    pub image: [u8; UNCOMPRESSED_IMAGE_SIZE],
    pub game_name: String,
    pub developer_name: String,
    pub full_game_name: String,
    pub full_developer_name: String,
    pub game_description: String,
}

/// The 8-bit value of a 5-bit channel, scaled by 255/31 and rounded down.
pub open spec fn widen5(c: int) -> int {
    c * 255 / 31
}

/// The 5-bit value of an 8-bit channel, scaled by 31/255 and rounded to the nearest.
pub open spec fn narrow8(c: int) -> int {
    (c * 31 + 127) / 255
}

/// The RGBA colour of the A1RGB5 pixel `[x, y]` (`ARRRRRGG GGGBBBBB`).
pub open spec fn spec_a1rgb5_to_rgba(x: u8, y: u8) -> Seq<u8> {
    let a = x >> 7u8;
    let r = (x >> 2u8) & 0x1fu8;
    let g = ((x & 0x3u8) << 3u8) | (y >> 5u8);
    let b = y & 0x1fu8;
    seq![widen5(r as int) as u8, widen5(g as int) as u8, widen5(b as int) as u8, (a * 255) as u8]
}

/// The A1RGB5 pixel of the RGBA colour `[r, g, b, a]`: opaque when `a >= 128`.
pub open spec fn spec_rgba_to_a1rgb5(r: u8, g: u8, b: u8, a: u8) -> Seq<u8> {
    let r5 = narrow8(r as int) as u8;
    let g5 = narrow8(g as int) as u8;
    let b5 = narrow8(b as int) as u8;
    let a1: u8 = if a >= 128 { 1 } else { 0 };
    seq![((a1 << 7u8) | (r5 << 2u8) | (g5 >> 3u8)) as u8, ((g5 << 5u8) | b5) as u8]
}

/// Decodes the A1RGB5 pixel in the first two bytes of `v`. (The channels are
/// scaled with integer arithmetic, which gives on every input the value that
/// a single-precision computation of the same formula gives.)
fn a1rgb5_to_rgba(v: &[u8]) -> (out: [u8; 4])
    requires
        v@.len() >= 2,
    ensures
        out@ == spec_a1rgb5_to_rgba(v@[0], v@[1]),
{
    let x = v[0];
    let y = v[1];
    let a = x >> 7u8;
    let r = (x >> 2u8) & 0x1fu8;
    let g = ((x & 0x3u8) << 3u8) | (y >> 5u8);
    let b = y & 0x1fu8;
    assert(a <= 1 && r <= 31 && g <= 31 && b <= 31) by (bit_vector)
        requires
            a == x >> 7u8,
            r == (x >> 2u8) & 0x1fu8,
            g == ((x & 0x3u8) << 3u8) | (y >> 5u8),
            b == y & 0x1fu8,
    ;
    let r8 = ((r as u32) * 255 / 31) as u8;
    let g8 = ((g as u32) * 255 / 31) as u8;
    let b8 = ((b as u32) * 255 / 31) as u8;
    let out = [r8, g8, b8, a * 255];
    assert(out@ =~= spec_a1rgb5_to_rgba(x, y));
    out
}

/// Encodes the RGBA colour in the first four bytes of `v` as an A1RGB5 pixel.
fn rgba_to_a1rgb5(v: &[u8]) -> (out: [u8; 2])
    requires
        v@.len() >= 4,
    ensures
        out@ == spec_rgba_to_a1rgb5(v@[0], v@[1], v@[2], v@[3]),
{
    let r = ((v[0] as u32 * 31 + 127) / 255) as u8;
    let g = ((v[1] as u32 * 31 + 127) / 255) as u8;
    let b = ((v[2] as u32 * 31 + 127) / 255) as u8;
    let a: u8 = if v[3] >= 128 { 1 } else { 0 };
    let x = (a << 7u8) | (r << 2u8) | (g >> 3u8);
    let y = (g << 5u8) | b;
    let out = [x, y];
    assert(out@ =~= spec_rgba_to_a1rgb5(v@[0], v@[1], v@[2], v@[3]));
    out
}

/// Encoding the colour that an A1RGB5 pixel decodes to gives back that pixel.
pub proof fn lemma_a1rgb5_round_trip(x: u8, y: u8)
    ensures
        ({
            let c = spec_a1rgb5_to_rgba(x, y);
            spec_rgba_to_a1rgb5(c[0], c[1], c[2], c[3]) == seq![x, y]
        }),
{
    let a = x >> 7u8;
    let r = (x >> 2u8) & 0x1fu8;
    let g = ((x & 0x3u8) << 3u8) | (y >> 5u8);
    let b = y & 0x1fu8;
    assert(a <= 1 && r <= 31 && g <= 31 && b <= 31) by (bit_vector)
        requires
            a == x >> 7u8,
            r == (x >> 2u8) & 0x1fu8,
            g == ((x & 0x3u8) << 3u8) | (y >> 5u8),
            b == y & 0x1fu8,
    ;
    assert(forall|c: int| 0 <= c <= 31 ==> #[trigger] narrow8(widen5(c)) == c) by {
        assert forall|c: int| 0 <= c <= 31 implies #[trigger] narrow8(widen5(c)) == c by {
            let w = c * 255 / 31;
            assert(31 * w <= 255 * c < 31 * w + 31);
            assert(255 * c <= w * 31 + 127 < 255 * c + 255);
            assert((w * 31 + 127) / 255 == c);
        }
    }
    let c = spec_a1rgb5_to_rgba(x, y);
    assert(narrow8(c[0] as int) == r as int);
    assert(narrow8(c[1] as int) == g as int);
    assert(narrow8(c[2] as int) == b as int);
    assert((c[3] >= 128) == (a == 1));
    let a1: u8 = if c[3] >= 128 { 1 } else { 0 };
    assert(a1 == a);
    assert(((a << 7u8) | (r << 2u8) | (g >> 3u8)) == x && ((g << 5u8) | b) == y) by (bit_vector)
        requires
            a == x >> 7u8,
            r == (x >> 2u8) & 0x1fu8,
            g == ((x & 0x3u8) << 3u8) | (y >> 5u8),
            b == y & 0x1fu8,
    ;
    assert(spec_rgba_to_a1rgb5(c[0], c[1], c[2], c[3]) =~= seq![x, y]);
}


/// The bytes of `s` before its first zero byte (all of them if there is none).
pub open spec fn until_nul(s: Seq<u8>) -> Seq<u8>
    decreases s.len(),
{
    if s.len() == 0 {
        s
    } else if s[0] == 0 {
        Seq::empty()
    } else {
        seq![s[0]] + until_nul(s.drop_first())
    }
}

/// The text that the field of `len` bytes at `off` of `data` decodes to.
pub open spec fn text_field(japanese: bool, data: Seq<u8>, off: int, len: int) -> Option<Seq<char>> {
    decoded_text(japanese, until_nul(data.subrange(off, off + len)))
}

/// Whether `data` starts with the magic of a banner, `BNR1` or `BNR2`.
pub open spec fn has_banner_magic(data: Seq<u8>) -> bool {
    data.len() >= 4 && data[0] == 0x42 && data[1] == 0x4e && data[2] == 0x52 && (data[3] == 0x31
        || data[3] == 0x32)
}

/// Whether every text field of the banner `data` decodes.
pub open spec fn texts_decode(japanese: bool, data: Seq<u8>) -> bool {
    &&& text_field(japanese, data, OFFSET_GAME_NAME as int, SHORT_TEXT_LEN as int) is Some
    &&& text_field(japanese, data, OFFSET_DEVELOPER_NAME as int, SHORT_TEXT_LEN as int) is Some
    &&& text_field(japanese, data, OFFSET_FULL_GAME_NAME as int, LONG_TEXT_LEN as int) is Some
    &&& text_field(japanese, data, OFFSET_FULL_DEVELOPER_NAME as int, LONG_TEXT_LEN as int) is Some
    &&& text_field(japanese, data, OFFSET_GAME_DESCRIPTION as int, DESCRIPTION_LEN as int) is Some
}

/// Whether `parse` accepts `data` (where it does not, reading the banner panics).
pub open spec fn parsable(japanese: bool, data: Seq<u8>) -> bool {
    data.len() >= BANNER_LEN && has_banner_magic(data) && texts_decode(japanese, data)
}

/// The RGBA pixel with raster index `i` of the picture of the banner `data`.
pub open spec fn banner_pixel(data: Seq<u8>, i: int) -> Seq<u8> {
    let c = tile_chunk(WIDTH as int, i);
    spec_a1rgb5_to_rgba(data[OFFSET_IMAGE + 2 * c], data[OFFSET_IMAGE + 2 * c + 1])
}

/// `b` is the banner that `data` holds.
pub open spec fn parsed_from(b: Banner, japanese: bool, data: Seq<u8>) -> bool {
    &&& b.magic@ == data.subrange(0, 4)
    &&& forall|i: int|
        0 <= i < WIDTH * HEIGHT ==> #[trigger] cell(b.image@, 4, i) == banner_pixel(data, i)
    &&& Some(b.game_name@) == text_field(japanese, data, OFFSET_GAME_NAME as int, SHORT_TEXT_LEN as int)
    &&& Some(b.developer_name@) == text_field(
        japanese,
        data,
        OFFSET_DEVELOPER_NAME as int,
        SHORT_TEXT_LEN as int,
    )
    &&& Some(b.full_game_name@) == text_field(
        japanese,
        data,
        OFFSET_FULL_GAME_NAME as int,
        LONG_TEXT_LEN as int,
    )
    &&& Some(b.full_developer_name@) == text_field(
        japanese,
        data,
        OFFSET_FULL_DEVELOPER_NAME as int,
        LONG_TEXT_LEN as int,
    )
    &&& Some(b.game_description@) == text_field(
        japanese,
        data,
        OFFSET_GAME_DESCRIPTION as int,
        DESCRIPTION_LEN as int,
    )
}

/// The `k`-th (in tile order) A1RGB5 pixel of the picture `image`.
pub open spec fn banner_chunk(image: Seq<u8>, k: int) -> Seq<u8> {
    let p = tile_pixel(WIDTH as int, k);
    spec_rgba_to_a1rgb5(image[4 * p], image[4 * p + 1], image[4 * p + 2], image[4 * p + 3])
}

/// `data` is the file that `b` is written as.
pub open spec fn written_from(b: Banner, japanese: bool, data: Seq<u8>) -> bool {
    let zeros = |n: int| Seq::new(n as nat, |i: int| 0u8);
    &&& data.len() == BANNER_LEN
    &&& data.subrange(0, 4) == b.magic@
    &&& data.subrange(4, OFFSET_IMAGE as int) == zeros(OFFSET_IMAGE - 4)
    &&& forall|k: int|
        0 <= k < WIDTH * HEIGHT ==> #[trigger] cell(
            data.subrange(OFFSET_IMAGE as int, OFFSET_GAME_NAME as int),
            2,
            k,
        ) == banner_chunk(b.image@, k)
    &&& data.subrange(OFFSET_GAME_NAME as int, OFFSET_DEVELOPER_NAME as int) == encoded_into(
        japanese,
        b.game_name@,
        zeros(SHORT_TEXT_LEN as int),
    )
    &&& data.subrange(OFFSET_DEVELOPER_NAME as int, OFFSET_FULL_GAME_NAME as int) == encoded_into(
        japanese,
        b.developer_name@,
        zeros(SHORT_TEXT_LEN as int),
    )
    &&& data.subrange(OFFSET_FULL_GAME_NAME as int, OFFSET_FULL_DEVELOPER_NAME as int)
        == encoded_into(japanese, b.full_game_name@, zeros(LONG_TEXT_LEN as int))
    &&& data.subrange(OFFSET_FULL_DEVELOPER_NAME as int, OFFSET_GAME_DESCRIPTION as int)
        == encoded_into(japanese, b.full_developer_name@, zeros(LONG_TEXT_LEN as int))
    &&& data.subrange(OFFSET_GAME_DESCRIPTION as int, BANNER_LEN as int) == encoded_into(
        japanese,
        b.game_description@,
        zeros(DESCRIPTION_LEN as int),
    )
}

/// Decodes the zero-terminated text at the start of `bytes`.
pub(crate) fn read_string(is_japanese: bool, bytes: &[u8]) -> (r: Option<String>)
    ensures
        match r {
            Some(s) => decoded_text(is_japanese, until_nul(bytes@)) == Some(s@),
            None => decoded_text(is_japanese, until_nul(bytes@)) is None,
        },
{
    let mut end: usize = 0;
    assert(bytes@.subrange(0, bytes@.len() as int) =~= bytes@);
    assert(bytes@.subrange(0, 0) + bytes@ =~= bytes@);
    while end < bytes.len() && bytes[end] != 0
        invariant
            end <= bytes@.len(),
            until_nul(bytes@) == bytes@.subrange(0, end as int) + until_nul(
                bytes@.subrange(end as int, bytes@.len() as int),
            ),
        decreases bytes@.len() - end,
    {
        let ghost rest = bytes@.subrange(end as int, bytes@.len() as int);
        assert(rest.drop_first() =~= bytes@.subrange(end + 1, bytes@.len() as int));
        assert(bytes@.subrange(0, end + 1) =~= bytes@.subrange(0, end as int) + seq![rest[0]]);
        end = end + 1;
    }
    assert(until_nul(bytes@.subrange(end as int, bytes@.len() as int)) =~= Seq::<u8>::empty());
    assert(until_nul(bytes@) =~= bytes@.subrange(0, end as int));
    decode_text(is_japanese, &bytes[0..end])
}

impl Banner {
    /// Reads the banner held in `data`, or gives `None` where `parse` would not
    /// accept it.
    pub fn try_parse(is_japanese: bool, data: &[u8]) -> (r: Option<Banner>)
        ensures
            r is Some <==> parsable(is_japanese, data@),
            r matches Some(b) ==> parsed_from(b, is_japanese, data@),
    {
        if data.len() < BANNER_LEN {
            return None;
        }
        if !(data[0] == 0x42 && data[1] == 0x4e && data[2] == 0x52 && (data[3] == 0x31 || data[3]
            == 0x32)) {
            return None;
        }
        let magic = [data[0], data[1], data[2], data[3]];
        assert(magic@ =~= data@.subrange(0, 4));
        let mut image = [0u8; UNCOMPRESSED_IMAGE_SIZE];
        let f = |p: &[u8]| -> (r: [u8; 4])
            requires
                p@.len() >= 2,
            ensures
                r@ == spec_a1rgb5_to_rgba(p@[0], p@[1]),
            { a1rgb5_to_rgba(p) };
        let src = &data[OFFSET_IMAGE..OFFSET_GAME_NAME];
        let ghost image0 = image@;
        decode(src, &mut image, (WIDTH, HEIGHT), COMPRESSED_BYTES_PER_PIXEL, f);
        assert(forall|i: int|
            0 <= i < 3072 ==> #[trigger] decoded_pixel(f, src@, 2, 96, i, cell(image@, 4, i)));
        proof {
            assert forall|i: int| 0 <= i < WIDTH * HEIGHT implies #[trigger] cell(image@, 4, i)
                == banner_pixel(data@, i) by {
                assert(decoded_pixel(f, src@, 2, WIDTH as int, i, cell(image@, 4, i)));
                let (x, r) = choose|x: &[u8], r: [u8; 4]|
                    x@ == cell(src@, 2, tile_chunk(WIDTH as int, i)) && call_ensures(f, (x,), r)
                        && cell(image@, 4, i) == r@;
                lemma_tile_chunk(WIDTH as int, HEIGHT as int, i);
            }
        }
        let game_name = match read_string(is_japanese, &data[OFFSET_GAME_NAME..OFFSET_DEVELOPER_NAME]) {
            Some(s) => s,
            None => {
                return None;
            },
        };
        let developer_name = match read_string(
            is_japanese,
            &data[OFFSET_DEVELOPER_NAME..OFFSET_FULL_GAME_NAME],
        ) {
            Some(s) => s,
            None => {
                return None;
            },
        };
        let full_game_name = match read_string(
            is_japanese,
            &data[OFFSET_FULL_GAME_NAME..OFFSET_FULL_DEVELOPER_NAME],
        ) {
            Some(s) => s,
            None => {
                return None;
            },
        };
        let full_developer_name = match read_string(
            is_japanese,
            &data[OFFSET_FULL_DEVELOPER_NAME..OFFSET_GAME_DESCRIPTION],
        ) {
            Some(s) => s,
            None => {
                return None;
            },
        };
        let game_description = match read_string(
            is_japanese,
            &data[OFFSET_GAME_DESCRIPTION..BANNER_LEN],
        ) {
            Some(s) => s,
            None => {
                return None;
            },
        };
        Some(
            Banner {
                magic,
                image,
                game_name,
                developer_name,
                full_game_name,
                full_developer_name,
                game_description,
            },
        )
    }

    /// Reads the banner held in `data`: its magic (`BNR1` or `BNR2`), its
    /// picture as RGBA and its texts, each up to its first zero byte and
    /// decoded as Shift_JIS when `is_japanese`, else as UTF-8. The files that
    /// that cannot be read (too short, another magic, a text that does not
    /// decode) are left out.
    pub fn parse(is_japanese: bool, data: &[u8]) -> (b: Banner)
        requires
            parsable(is_japanese, data@),
        ensures
            parsed_from(b, is_japanese, data@),
    {
        match Self::try_parse(is_japanese, data) {
            Some(b) => b,
            None => Banner {
                magic: [0u8; MAGIC_LEN],
                image: [0u8; UNCOMPRESSED_IMAGE_SIZE],
                game_name: String::new(),
                developer_name: String::new(),
                full_game_name: String::new(),
                full_developer_name: String::new(),
                game_description: String::new(),
            },
        }
    }

    /// Writes the banner as the bytes of a banner file: the magic, the picture
    /// as A1RGB5 in tiles, and each text encoded into its field.
    pub fn to_bytes(&self, is_japanese: bool) -> (data: [u8; BANNER_LEN])
        ensures
            written_from(*self, is_japanese, data@),
    {
        let mut data = [0u8; BANNER_LEN];
        let ghost zeros = |n: int| Seq::new(n as nat, |i: int| 0u8);
        data[0] = self.magic[0];
        data[1] = self.magic[1];
        data[2] = self.magic[2];
        data[3] = self.magic[3];
        let mut compressed = [0u8; COMPRESSED_IMAGE_SIZE];
        let f = |p: &[u8]| -> (r: Vec<u8>)
            requires
                p@.len() >= 4,
            ensures
                r@ == spec_rgba_to_a1rgb5(p@[0], p@[1], p@[2], p@[3]),
            {
                let e = rgba_to_a1rgb5(p);
                let mut v = Vec::new();
                v.push(e[0]);
                v.push(e[1]);
                assert(v@ =~= e@);
                v
            };
        encode(&self.image, &mut compressed, (WIDTH, HEIGHT), COMPRESSED_BYTES_PER_PIXEL, f);
        assert(forall|k: int|
            0 <= k < 3072 ==> #[trigger] encoded_pixel(f, self.image@, 96, k, cell(compressed@, 2, k)));
        let ghost head = data@;
        let mut n: usize = 0;
        while n < COMPRESSED_IMAGE_SIZE
            invariant
                n <= COMPRESSED_IMAGE_SIZE,
                data@.len() == BANNER_LEN,
                forall|j: int| 0 <= j < OFFSET_IMAGE ==> #[trigger] data@[j] == head[j],
                forall|j: int| OFFSET_IMAGE + n <= j < BANNER_LEN ==> #[trigger] data@[j] == head[j],
                forall|j: int| 0 <= j < n ==> #[trigger] data@[OFFSET_IMAGE + j] == compressed@[j],
            decreases COMPRESSED_IMAGE_SIZE - n,
        {
            data[OFFSET_IMAGE + n] = compressed[n];
            n = n + 1;
        }
        proof {
            assert forall|j: int| 0 <= j < COMPRESSED_IMAGE_SIZE implies #[trigger] data@.subrange(
                OFFSET_IMAGE as int,
                OFFSET_GAME_NAME as int,
            )[j] == compressed@[j] by {
                assert(data@[OFFSET_IMAGE + j] == compressed@[j]);
            }
            assert(data@.subrange(OFFSET_IMAGE as int, OFFSET_GAME_NAME as int) =~= compressed@);
            assert forall|k: int| 0 <= k < WIDTH * HEIGHT implies #[trigger] cell(
                data@.subrange(OFFSET_IMAGE as int, OFFSET_GAME_NAME as int),
                2,
                k,
            ) == banner_chunk(self.image@, k) by {
                assert(encoded_pixel(f, self.image@, WIDTH as int, k, cell(compressed@, 2, k)));
                let (x, r) = choose|x: &[u8], r: Vec<u8>|
                    x@ == cell(self.image@, 4, tile_pixel(WIDTH as int, k)) && call_ensures(
                        f,
                        (x,),
                        r,
                    ) && cell(compressed@, 2, k) == r@;
                lemma_tile_pixel(WIDTH as int, HEIGHT as int, k);
            }
            assert(data@.subrange(0, 4) =~= self.magic@);
            assert(data@.subrange(4, OFFSET_IMAGE as int) =~= zeros(OFFSET_IMAGE - 4));
            assert(data@.subrange(OFFSET_GAME_NAME as int, BANNER_LEN as int) =~= zeros(
                BANNER_LEN - OFFSET_GAME_NAME,
            ));
        }
        let ghost d0 = data@;
        proof {
            assert(d0.subrange(OFFSET_GAME_NAME as int, BANNER_LEN as int) =~= zeros(
                BANNER_LEN - OFFSET_GAME_NAME,
            ));
        }
        encode_text(is_japanese, self.game_name.as_str(), &mut data, OFFSET_GAME_NAME, SHORT_TEXT_LEN);
        let ghost d1 = data@;
        encode_text(
            is_japanese,
            self.developer_name.as_str(),
            &mut data,
            OFFSET_DEVELOPER_NAME,
            SHORT_TEXT_LEN,
        );
        let ghost d2 = data@;
        encode_text(
            is_japanese,
            self.full_game_name.as_str(),
            &mut data,
            OFFSET_FULL_GAME_NAME,
            LONG_TEXT_LEN,
        );
        let ghost d3 = data@;
        encode_text(
            is_japanese,
            self.full_developer_name.as_str(),
            &mut data,
            OFFSET_FULL_DEVELOPER_NAME,
            LONG_TEXT_LEN,
        );
        let ghost d4 = data@;
        encode_text(
            is_japanese,
            self.game_description.as_str(),
            &mut data,
            OFFSET_GAME_DESCRIPTION,
            DESCRIPTION_LEN,
        );
        proof {
            let d5 = data@;
            let e1 = encoded_into(is_japanese, self.game_name@, d0.subrange(0x1820, 0x1840));
            let e2 = encoded_into(is_japanese, self.developer_name@, d1.subrange(0x1840, 0x1860));
            let e3 = encoded_into(is_japanese, self.full_game_name@, d2.subrange(0x1860, 0x18a0));
            let e4 = encoded_into(is_japanese, self.full_developer_name@, d3.subrange(0x18a0, 0x18e0));
            let e5 = encoded_into(is_japanese, self.game_description@, d4.subrange(0x18e0, 0x1960));
            assert(d0.subrange(0x1820, 0x1840) =~= zeros(0x20));
            assert(d1.subrange(0x1840, 0x1860) =~= zeros(0x20));
            assert(d2.subrange(0x1860, 0x18a0) =~= zeros(0x40));
            assert(d3.subrange(0x18a0, 0x18e0) =~= zeros(0x40));
            assert(d4.subrange(0x18e0, 0x1960) =~= zeros(0x80));
            assert(d5.subrange(0x1820, 0x1840) =~= e1);
            assert(d5.subrange(0x1840, 0x1860) =~= e2);
            assert(d5.subrange(0x1860, 0x18a0) =~= e3);
            assert(d5.subrange(0x18a0, 0x18e0) =~= e4);
            assert(d5.subrange(0x18e0, 0x1960) =~= e5);
            assert(d1.subrange(0, 0x1820) =~= d0.subrange(0, 0x1820));
            assert(d2.subrange(0, 0x1820) =~= d1.subrange(0, 0x1820));
            assert(d3.subrange(0, 0x1820) =~= d2.subrange(0, 0x1820));
            assert(d4.subrange(0, 0x1820) =~= d3.subrange(0, 0x1820));
            assert(d5.subrange(0, 0x1820) =~= d4.subrange(0, 0x1820));
            assert(d5.subrange(0, 4) =~= d0.subrange(0, 4));
            assert(d5.subrange(4, 0x20) =~= d0.subrange(4, 0x20));
            assert(d5.subrange(0x20, 0x1820) =~= d0.subrange(0x20, 0x1820));
        }
        data
    }
}


/// The encoded picture of the banner file `data`.
pub open spec fn picture(data: Seq<u8>) -> Seq<u8> {
    data.subrange(OFFSET_IMAGE as int, OFFSET_GAME_NAME as int)
}

/// Writing out a banner that was read from a file gives back the file's magic
/// and the exact bytes of its picture.
pub proof fn lemma_picture_round_trip(data: Seq<u8>, b: Banner, japanese: bool, out: Seq<u8>, out_japanese: bool)
    requires
        parsable(japanese, data),
        parsed_from(b, japanese, data),
        written_from(b, out_japanese, out),
    ensures
        out.subrange(0, 4) == data.subrange(0, 4),
        picture(out) == picture(data),
{
    assert forall|m: int| 0 <= m < WIDTH * HEIGHT implies #[trigger] cell(picture(out), 2, m)
        == cell(picture(data), 2, m) by {
        lemma_tile_pixel(WIDTH as int, HEIGHT as int, m);
        let p = tile_pixel(WIDTH as int, m);
        assert(0 <= 4 * p && 4 * p + 4 <= UNCOMPRESSED_IMAGE_SIZE);
        let c = cell(b.image@, 4, p);
        assert(c == banner_pixel(data, p));
        assert(b.image@[4 * p] == c[0] && b.image@[4 * p + 1] == c[1] && b.image@[4 * p + 2]
            == c[2] && b.image@[4 * p + 3] == c[3]);
        lemma_a1rgb5_round_trip(data[OFFSET_IMAGE + 2 * m], data[OFFSET_IMAGE + 2 * m + 1]);
        assert(cell(picture(data), 2, m) =~= seq![
            data[OFFSET_IMAGE + 2 * m],
            data[OFFSET_IMAGE + 2 * m + 1],
        ]);
    }
    assert forall|k: int| 0 <= k < COMPRESSED_IMAGE_SIZE implies #[trigger] picture(out)[k]
        == picture(data)[k] by {
        let m = k / 2;
        assert(0 <= m < WIDTH * HEIGHT);
        assert(cell(picture(out), 2, m) == cell(picture(data), 2, m));
        assert(picture(out)[k] == cell(picture(out), 2, m)[k - 2 * m]);
        assert(picture(data)[k] == cell(picture(data), 2, m)[k - 2 * m]);
    }
    assert(picture(out) =~= picture(data));
}

/// The text `t` comes back out of a field of `slot` bytes: it holds no zero
/// character, it is written out whole (`writes_plainly`), and a zero byte
/// still follows it in the field.
pub open spec fn text_fits(japanese: bool, t: Seq<char>, slot: int) -> bool {
    &&& forall|i: int| 0 <= i < t.len() ==> (t[i] as u32) != 0
    &&& writes_plainly(japanese, t, slot)
    &&& plain_bytes(japanese, t).len() < slot
}

/// Every text of `b` fits its field.
pub open spec fn texts_fit(japanese: bool, b: Banner) -> bool {
    &&& text_fits(japanese, b.game_name@, SHORT_TEXT_LEN as int)
    &&& text_fits(japanese, b.developer_name@, SHORT_TEXT_LEN as int)
    &&& text_fits(japanese, b.full_game_name@, LONG_TEXT_LEN as int)
    &&& text_fits(japanese, b.full_developer_name@, LONG_TEXT_LEN as int)
    &&& text_fits(japanese, b.game_description@, DESCRIPTION_LEN as int)
}

/// The UTF-8 encoding of a character other than `'\0'` has no zero byte.
proof fn lemma_scalar_no_zero(c: char)
    requires
        (c as u32) != 0,
    ensures
        forall|i: int| 0 <= i < encode_scalar(c as u32).len() ==> #[trigger] encode_scalar(c as u32)[i] != 0,
{
    let s = c as u32;
    assert(s <= 0x7f ==> (s & 0x7f) as u8 != 0) by (bit_vector)
        requires
            s != 0,
    ;
    assert(forall|x: u8| #[trigger] (0x80u8 | x) != 0) by (bit_vector);
    assert(forall|x: u8| #[trigger] (0xC0u8 | x) != 0) by (bit_vector);
    assert(forall|x: u8| #[trigger] (0xE0u8 | x) != 0) by (bit_vector);
    assert(forall|x: u8| #[trigger] (0xF0u8 | x) != 0) by (bit_vector);
}

/// The UTF-8 encoding of a text without `'\0'` has no zero byte.
proof fn lemma_utf8_no_zero(t: Seq<char>)
    requires
        forall|i: int| 0 <= i < t.len() ==> (t[i] as u32) != 0,
    ensures
        forall|i: int| 0 <= i < encode_utf8(t).len() ==> encode_utf8(t)[i] != 0,
    decreases t.len(),
{
    if t.len() > 0 {
        lemma_scalar_no_zero(t[0]);
        let rest = t.drop_first();
        assert forall|i: int| 0 <= i < rest.len() implies (rest[i] as u32) != 0 by {
            assert(rest[i] == t[i + 1]);
        }
        lemma_utf8_no_zero(rest);
        let e = encode_scalar(t[0] as u32);
        assert forall|i: int| 0 <= i < encode_utf8(t).len() implies encode_utf8(t)[i] != 0 by {
            if i >= e.len() {
                assert(encode_utf8(t)[i] == encode_utf8(rest)[i - e.len()]);
            }
        }
    }
}

/// Up to the first zero byte, bytes without a zero followed by a zero byte
/// are just those bytes.
proof fn lemma_until_nul_prefix(p: Seq<u8>, rest: Seq<u8>)
    requires
        forall|i: int| 0 <= i < p.len() ==> p[i] != 0,
        rest.len() > 0,
        rest[0] == 0,
    ensures
        until_nul(p + rest) == p,
    decreases p.len(),
{
    if p.len() == 0 {
        assert(p + rest =~= rest);
    } else {
        let tail = p.drop_first();
        lemma_until_nul_prefix(tail, rest);
        assert((p + rest).drop_first() =~= tail + rest);
        assert(seq![p[0]] + tail =~= p);
    }
}

/// A text that fits its field is read back from the field it is written
/// into: decoding the field up to its first zero byte gives the text.
pub proof fn lemma_text_round_trip(japanese: bool, t: Seq<char>, slot: int)
    requires
        text_fits(japanese, t, slot),
    ensures
        decoded_text(japanese, until_nul(encoded_into(japanese, t, Seq::new(slot as nat, |i: int| 0u8))))
            == Some(t),
{
    let zeros = Seq::new(slot as nat, |i: int| 0u8);
    let p = plain_bytes(japanese, t);
    let rest = zeros.subrange(p.len() as int, slot);
    assert(encoded_into(japanese, t, zeros) == p + rest);
    if japanese {
        assert forall|i: int| 0 <= i < p.len() implies p[i] != 0 && p[i] < 0x80 && (p[i] as char) == t[i] by {
            let u = t[i] as u32;
            assert(u < 0x80 && u != 0);
            assert(p[i] == u as u8);
            assert(p[i] as int == u as int);
            vstd::utf8::char_u32_cast(t[i], u);
        }
    } else {
        lemma_utf8_no_zero(t);
    }
    lemma_until_nul_prefix(p, rest);
    if japanese {
        assert(is_ascii_bytes(p));
        assert forall|i: int| 0 <= i < t.len() implies ascii_text(p)[i] == t[i] by {
            assert(p[i] as char == t[i]);
        }
        assert(ascii_text(p) =~= t);
    } else {
        encode_utf8_valid_utf8(t);
        encode_utf8_decode_utf8(t);
    }
}

/// Reading a banner file that was written from `b` gives back `b`'s magic
/// and texts, where the magic is `BNR1` or `BNR2` and every text fits its
/// field: the file is `parsable`, and any banner parsed from it has them.
pub proof fn lemma_banner_round_trip(b: Banner, japanese: bool, data: Seq<u8>, p: Banner)
    requires
        has_banner_magic(b.magic@),
        texts_fit(japanese, b),
        written_from(b, japanese, data),
    ensures
        parsable(japanese, data),
        parsed_from(p, japanese, data) ==> {
            &&& p.magic@ == b.magic@
            &&& p.game_name@ == b.game_name@
            &&& p.developer_name@ == b.developer_name@
            &&& p.full_game_name@ == b.full_game_name@
            &&& p.full_developer_name@ == b.full_developer_name@
            &&& p.game_description@ == b.game_description@
        },
{
    lemma_text_round_trip(japanese, b.game_name@, SHORT_TEXT_LEN as int);
    lemma_text_round_trip(japanese, b.developer_name@, SHORT_TEXT_LEN as int);
    lemma_text_round_trip(japanese, b.full_game_name@, LONG_TEXT_LEN as int);
    lemma_text_round_trip(japanese, b.full_developer_name@, LONG_TEXT_LEN as int);
    lemma_text_round_trip(japanese, b.game_description@, DESCRIPTION_LEN as int);
    assert(data.subrange(OFFSET_GAME_NAME as int, OFFSET_GAME_NAME + SHORT_TEXT_LEN) =~= data.subrange(
        OFFSET_GAME_NAME as int,
        OFFSET_DEVELOPER_NAME as int,
    ));
    assert(data.subrange(OFFSET_DEVELOPER_NAME as int, OFFSET_DEVELOPER_NAME + SHORT_TEXT_LEN)
        =~= data.subrange(OFFSET_DEVELOPER_NAME as int, OFFSET_FULL_GAME_NAME as int));
    assert(data.subrange(OFFSET_FULL_GAME_NAME as int, OFFSET_FULL_GAME_NAME + LONG_TEXT_LEN)
        =~= data.subrange(OFFSET_FULL_GAME_NAME as int, OFFSET_FULL_DEVELOPER_NAME as int));
    assert(data.subrange(OFFSET_FULL_DEVELOPER_NAME as int, OFFSET_FULL_DEVELOPER_NAME + LONG_TEXT_LEN)
        =~= data.subrange(OFFSET_FULL_DEVELOPER_NAME as int, OFFSET_GAME_DESCRIPTION as int));
    assert(data.subrange(OFFSET_GAME_DESCRIPTION as int, OFFSET_GAME_DESCRIPTION + DESCRIPTION_LEN)
        =~= data.subrange(OFFSET_GAME_DESCRIPTION as int, BANNER_LEN as int));
    assert(data.subrange(0, 4) == b.magic@);
    if parsed_from(p, japanese, data) {
        assert(p.magic@ =~= b.magic@);
    }
}

} // verus!
