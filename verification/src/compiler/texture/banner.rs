//! The opening banner of a GameCube disc, with its picture read and written as
//! RGB5A3.
use super::image::{
    cell, decode_rgb5a3, encode_rgb5a3, lemma_encode_of_decode, rgb5a3_of_rgba, rgba_of_rgb5a3,
};
use crate::compiler::banner::{
    lemma_text_round_trip, text_fits, has_banner_magic, read_string, text_field, texts_decode, BANNER_LEN, DESCRIPTION_LEN,
    LONG_TEXT_LEN, MAGIC_LEN, OFFSET_DEVELOPER_NAME, OFFSET_FULL_DEVELOPER_NAME,
    OFFSET_FULL_GAME_NAME, OFFSET_GAME_DESCRIPTION, OFFSET_GAME_NAME, OFFSET_IMAGE, SHORT_TEXT_LEN,
    UNCOMPRESSED_IMAGE_SIZE, COMPRESSED_IMAGE_SIZE, HEIGHT, WIDTH,
};
use crate::compiler::text_codec::{encode_text, encoded_into};
use vstd::prelude::*;

verus! {

/// A parsed banner; `image` holds the picture as RGBA, row by row.
pub struct Banner {
    pub magic: [u8; MAGIC_LEN],
    pub image: [u8; UNCOMPRESSED_IMAGE_SIZE],
    pub game_name: String,
    pub developer_name: String,
    pub full_game_name: String,
    pub full_developer_name: String,
    pub game_description: String,
}

/// The encoded picture of the banner file `data`.
pub open spec fn picture(data: Seq<u8>) -> Seq<u8> {
    data.subrange(OFFSET_IMAGE as int, OFFSET_GAME_NAME as int)
}

/// Whether `parse` accepts `data` (where it does not, reading the banner panics).
pub open spec fn parsable(japanese: bool, data: Seq<u8>) -> bool {
    data.len() >= BANNER_LEN && has_banner_magic(data) && texts_decode(japanese, data)
}

/// `b` is the banner that `data` holds.
pub open spec fn parsed_from(b: Banner, japanese: bool, data: Seq<u8>) -> bool {
    &&& b.magic@ == data.subrange(0, 4)
    &&& forall|i: int|
        0 <= i < WIDTH * HEIGHT ==> #[trigger] cell(b.image@, 4, i) == rgba_of_rgb5a3(
            picture(data),
            WIDTH as int,
            i,
        )
    &&& Some(b.game_name@) == text_field(japanese, data, OFFSET_GAME_NAME as int, SHORT_TEXT_LEN as int)
    &&& Some(b.developer_name@) == text_field(
        japanese,
        data,
        OFFSET_DEVELOPER_NAME as int,
        SHORT_TEXT_LEN as int,
    )
    &&& Some(b.full_game_name@) == text_field(
        japanese,
        data,
        OFFSET_FULL_GAME_NAME as int,
        LONG_TEXT_LEN as int,
    )
    &&& Some(b.full_developer_name@) == text_field(
        japanese,
        data,
        OFFSET_FULL_DEVELOPER_NAME as int,
        LONG_TEXT_LEN as int,
    )
    &&& Some(b.game_description@) == text_field(
        japanese,
        data,
        OFFSET_GAME_DESCRIPTION as int,
        DESCRIPTION_LEN as int,
    )
}

/// `data` is the file that `b` is written as.
pub open spec fn written_from(b: Banner, japanese: bool, data: Seq<u8>) -> bool {
    let zeros = |n: int| Seq::new(n as nat, |i: int| 0u8);
    &&& data.len() == BANNER_LEN
    &&& data.subrange(0, 4) == b.magic@
    &&& data.subrange(4, OFFSET_IMAGE as int) == zeros(OFFSET_IMAGE - 4)
    &&& forall|k: int|
        0 <= k < WIDTH * HEIGHT ==> #[trigger] cell(picture(data), 2, k) == rgb5a3_of_rgba(
            b.image@,
            WIDTH as int,
            k,
        )
    &&& data.subrange(OFFSET_GAME_NAME as int, OFFSET_DEVELOPER_NAME as int) == encoded_into(
        japanese,
        b.game_name@,
        zeros(SHORT_TEXT_LEN as int),
    )
    &&& data.subrange(OFFSET_DEVELOPER_NAME as int, OFFSET_FULL_GAME_NAME as int) == encoded_into(
        japanese,
        b.developer_name@,
        zeros(SHORT_TEXT_LEN as int),
    )
    &&& data.subrange(OFFSET_FULL_GAME_NAME as int, OFFSET_FULL_DEVELOPER_NAME as int)
        == encoded_into(japanese, b.full_game_name@, zeros(LONG_TEXT_LEN as int))
    &&& data.subrange(OFFSET_FULL_DEVELOPER_NAME as int, OFFSET_GAME_DESCRIPTION as int)
        == encoded_into(japanese, b.full_developer_name@, zeros(LONG_TEXT_LEN as int))
    &&& data.subrange(OFFSET_GAME_DESCRIPTION as int, BANNER_LEN as int) == encoded_into(
        japanese,
        b.game_description@,
        zeros(DESCRIPTION_LEN as int),
    )
}

impl Banner {
    /// Reads the banner held in `data`, or gives `None` where `parse` would not
    /// accept it.
    pub fn try_parse(is_japanese: bool, data: &[u8]) -> (r: Option<Banner>)
        ensures
            r is Some <==> parsable(is_japanese, data@),
            r matches Some(b) ==> parsed_from(b, is_japanese, data@),
    {
        if data.len() < BANNER_LEN {
            return None;
        }
        if !(data[0] == 0x42 && data[1] == 0x4e && data[2] == 0x52 && (data[3] == 0x31 || data[3]
            == 0x32)) {
            return None;
        }
        let magic = [data[0], data[1], data[2], data[3]];
        assert(magic@ =~= data@.subrange(0, 4));
        let mut image = [0u8; UNCOMPRESSED_IMAGE_SIZE];
        let src = &data[OFFSET_IMAGE..OFFSET_GAME_NAME];
        decode_rgb5a3(src, &mut image, (WIDTH, HEIGHT));
        assert(forall|i: int|
            0 <= i < 3072 ==> #[trigger] cell(image@, 4, i) == rgba_of_rgb5a3(src@, 96, i));
        let game_name = match read_string(is_japanese, &data[OFFSET_GAME_NAME..OFFSET_DEVELOPER_NAME]) {
            Some(s) => s,
            None => {
                return None;
            },
        };
        let developer_name = match read_string(
            is_japanese,
            &data[OFFSET_DEVELOPER_NAME..OFFSET_FULL_GAME_NAME],
        ) {
            Some(s) => s,
            None => {
                return None;
            },
        };
        let full_game_name = match read_string(
            is_japanese,
            &data[OFFSET_FULL_GAME_NAME..OFFSET_FULL_DEVELOPER_NAME],
        ) {
            Some(s) => s,
            None => {
                return None;
            },
        };
        let full_developer_name = match read_string(
            is_japanese,
            &data[OFFSET_FULL_DEVELOPER_NAME..OFFSET_GAME_DESCRIPTION],
        ) {
            Some(s) => s,
            None => {
                return None;
            },
        };
        let game_description = match read_string(
            is_japanese,
            &data[OFFSET_GAME_DESCRIPTION..BANNER_LEN],
        ) {
            Some(s) => s,
            None => {
                return None;
            },
        };
        Some(
            Banner {
                magic,
                image,
                game_name,
                developer_name,
                full_game_name,
                full_developer_name,
                game_description,
            },
        )
    }

    /// Reads the banner held in `data`: its magic (`BNR1` or `BNR2`), its
    /// picture decoded from RGB5A3 into RGBA and its texts, each up to its first
    /// zero byte and decoded as Shift_JIS when `is_japanese`, else as UTF-8.
    /// The files that cannot be read are left out.
    pub fn parse(is_japanese: bool, data: &[u8]) -> (b: Banner)
        requires
            parsable(is_japanese, data@),
        ensures
            parsed_from(b, is_japanese, data@),
    {
        match Self::try_parse(is_japanese, data) {
            Some(b) => b,
            None => Banner {
                magic: [0u8; MAGIC_LEN],
                image: [0u8; UNCOMPRESSED_IMAGE_SIZE],
                game_name: String::new(),
                developer_name: String::new(),
                full_game_name: String::new(),
                full_developer_name: String::new(),
                game_description: String::new(),
            },
        }
    }

    /// Writes the banner as the bytes of a banner file: the magic, the picture
    /// encoded as RGB5A3 in tiles, and each text encoded into its field.
    pub fn to_bytes(&self, is_japanese: bool) -> (data: [u8; BANNER_LEN])
        ensures
            written_from(*self, is_japanese, data@),
    {
        let mut data = [0u8; BANNER_LEN];
        let ghost zeros = |n: int| Seq::new(n as nat, |i: int| 0u8);
        data[0] = self.magic[0];
        data[1] = self.magic[1];
        data[2] = self.magic[2];
        data[3] = self.magic[3];
        let mut compressed = [0u8; COMPRESSED_IMAGE_SIZE];
        encode_rgb5a3(&self.image, &mut compressed, (WIDTH, HEIGHT));
        assert(forall|k: int|
            0 <= k < 3072 ==> #[trigger] cell(compressed@, 2, k) == rgb5a3_of_rgba(self.image@, 96, k));
        let ghost head = data@;
        let mut n: usize = 0;
        while n < COMPRESSED_IMAGE_SIZE
            invariant
                n <= COMPRESSED_IMAGE_SIZE,
                data@.len() == BANNER_LEN,
                forall|j: int| 0 <= j < OFFSET_IMAGE ==> #[trigger] data@[j] == head[j],
                forall|j: int| OFFSET_IMAGE + n <= j < BANNER_LEN ==> #[trigger] data@[j] == head[j],
                forall|j: int| 0 <= j < n ==> #[trigger] data@[OFFSET_IMAGE + j] == compressed@[j],
            decreases COMPRESSED_IMAGE_SIZE - n,
        {
            data[OFFSET_IMAGE + n] = compressed[n];
            n = n + 1;
        }
        proof {
            assert forall|j: int| 0 <= j < COMPRESSED_IMAGE_SIZE implies #[trigger] data@.subrange(
                OFFSET_IMAGE as int,
                OFFSET_GAME_NAME as int,
            )[j] == compressed@[j] by {
                assert(data@[OFFSET_IMAGE + j] == compressed@[j]);
            }
            assert(data@.subrange(OFFSET_IMAGE as int, OFFSET_GAME_NAME as int) =~= compressed@);
        }
        let ghost d0 = data@;
        proof {
            assert(d0.subrange(OFFSET_GAME_NAME as int, BANNER_LEN as int) =~= zeros(
                BANNER_LEN - OFFSET_GAME_NAME,
            ));
        }
        encode_text(is_japanese, self.game_name.as_str(), &mut data, OFFSET_GAME_NAME, SHORT_TEXT_LEN);
        let ghost d1 = data@;
        encode_text(
            is_japanese,
            self.developer_name.as_str(),
            &mut data,
            OFFSET_DEVELOPER_NAME,
            SHORT_TEXT_LEN,
        );
        let ghost d2 = data@;
        encode_text(
            is_japanese,
            self.full_game_name.as_str(),
            &mut data,
            OFFSET_FULL_GAME_NAME,
            LONG_TEXT_LEN,
        );
        let ghost d3 = data@;
        encode_text(
            is_japanese,
            self.full_developer_name.as_str(),
            &mut data,
            OFFSET_FULL_DEVELOPER_NAME,
            LONG_TEXT_LEN,
        );
        let ghost d4 = data@;
        encode_text(
            is_japanese,
            self.game_description.as_str(),
            &mut data,
            OFFSET_GAME_DESCRIPTION,
            DESCRIPTION_LEN,
        );
        proof {
            let d5 = data@;
            let e1 = encoded_into(is_japanese, self.game_name@, d0.subrange(0x1820, 0x1840));
            let e2 = encoded_into(is_japanese, self.developer_name@, d1.subrange(0x1840, 0x1860));
            let e3 = encoded_into(is_japanese, self.full_game_name@, d2.subrange(0x1860, 0x18a0));
            let e4 = encoded_into(is_japanese, self.full_developer_name@, d3.subrange(0x18a0, 0x18e0));
            let e5 = encoded_into(is_japanese, self.game_description@, d4.subrange(0x18e0, 0x1960));
            assert(d0.subrange(0x1820, 0x1840) =~= zeros(0x20));
            assert(d1.subrange(0x1840, 0x1860) =~= zeros(0x20));
            assert(d2.subrange(0x1860, 0x18a0) =~= zeros(0x40));
            assert(d3.subrange(0x18a0, 0x18e0) =~= zeros(0x40));
            assert(d4.subrange(0x18e0, 0x1960) =~= zeros(0x80));
            assert(d5.subrange(0x1820, 0x1840) =~= e1);
            assert(d5.subrange(0x1840, 0x1860) =~= e2);
            assert(d5.subrange(0x1860, 0x18a0) =~= e3);
            assert(d5.subrange(0x18a0, 0x18e0) =~= e4);
            assert(d5.subrange(0x18e0, 0x1960) =~= e5);
            assert(d1.subrange(0, 0x1820) =~= d0.subrange(0, 0x1820));
            assert(d2.subrange(0, 0x1820) =~= d1.subrange(0, 0x1820));
            assert(d3.subrange(0, 0x1820) =~= d2.subrange(0, 0x1820));
            assert(d4.subrange(0, 0x1820) =~= d3.subrange(0, 0x1820));
            assert(d5.subrange(0, 0x1820) =~= d4.subrange(0, 0x1820));
            assert(d5.subrange(0, 4) =~= d0.subrange(0, 4));
            assert(d5.subrange(4, 0x20) =~= d0.subrange(4, 0x20));
            assert(d5.subrange(0x20, 0x1820) =~= d0.subrange(0x20, 0x1820));
            assert(picture(d5) =~= compressed@);
            assert forall|k: int| 0 <= k < WIDTH * HEIGHT implies #[trigger] cell(picture(d5), 2, k)
                == rgb5a3_of_rgba(self.image@, WIDTH as int, k) by {
                assert(cell(compressed@, 2, k) == rgb5a3_of_rgba(self.image@, 96, k));
            }
            assert(d5.len() == BANNER_LEN);
            assert(d5.subrange(0, 4) == self.magic@);
            assert(d5.subrange(4, OFFSET_IMAGE as int) == zeros(OFFSET_IMAGE - 4));
            assert(d5.subrange(OFFSET_GAME_NAME as int, OFFSET_DEVELOPER_NAME as int) == encoded_into(
                is_japanese, self.game_name@, zeros(SHORT_TEXT_LEN as int)));
        }
        data
    }
}

/// Writing out a banner that was read from a file gives back the file's magic
/// and the exact bytes of its picture.
pub proof fn lemma_picture_round_trip(data: Seq<u8>, b: Banner, japanese: bool, out: Seq<u8>, out_japanese: bool)
    requires
        parsable(japanese, data),
        parsed_from(b, japanese, data),
        written_from(b, out_japanese, out),
    ensures
        out.subrange(0, 4) == data.subrange(0, 4),
        picture(out) == picture(data),
{
    let t = picture(data);
    lemma_encode_of_decode(t, b.image@, WIDTH as int, HEIGHT as int);
    assert forall|k: int| 0 <= k < COMPRESSED_IMAGE_SIZE implies #[trigger] picture(out)[k]
        == picture(data)[k] by {
        let m = k / 2;
        assert(0 <= m < WIDTH * HEIGHT);
        assert(cell(picture(out), 2, m) == cell(t, 2, m));
        assert(picture(out)[k] == cell(picture(out), 2, m)[k - 2 * m]);
        assert(t[k] == cell(t, 2, m)[k - 2 * m]);
    }
    assert(picture(out) =~= picture(data));
}

/// Every text of `b` fits its field.
pub open spec fn texts_fit(japanese: bool, b: Banner) -> bool {
    &&& text_fits(japanese, b.game_name@, SHORT_TEXT_LEN as int)
    &&& text_fits(japanese, b.developer_name@, SHORT_TEXT_LEN as int)
    &&& text_fits(japanese, b.full_game_name@, LONG_TEXT_LEN as int)
    &&& text_fits(japanese, b.full_developer_name@, LONG_TEXT_LEN as int)
    &&& text_fits(japanese, b.game_description@, DESCRIPTION_LEN as int)
}

/// Reading a banner file that was written from `b` gives back `b`'s magic
/// and texts, where the magic is `BNR1` or `BNR2` and every text fits its
/// field: the file is `parsable`, and any banner parsed from it has them.
pub proof fn lemma_banner_round_trip(b: Banner, japanese: bool, data: Seq<u8>, p: Banner)
    requires
        has_banner_magic(b.magic@),
        texts_fit(japanese, b),
        written_from(b, japanese, data),
    ensures
        parsable(japanese, data),
        parsed_from(p, japanese, data) ==> {
            &&& p.magic@ == b.magic@
            &&& p.game_name@ == b.game_name@
            &&& p.developer_name@ == b.developer_name@
            &&& p.full_game_name@ == b.full_game_name@
            &&& p.full_developer_name@ == b.full_developer_name@
            &&& p.game_description@ == b.game_description@
        },
{
    lemma_text_round_trip(japanese, b.game_name@, SHORT_TEXT_LEN as int);
    lemma_text_round_trip(japanese, b.developer_name@, SHORT_TEXT_LEN as int);
    lemma_text_round_trip(japanese, b.full_game_name@, LONG_TEXT_LEN as int);
    lemma_text_round_trip(japanese, b.full_developer_name@, LONG_TEXT_LEN as int);
    lemma_text_round_trip(japanese, b.game_description@, DESCRIPTION_LEN as int);
    assert(data.subrange(OFFSET_GAME_NAME as int, OFFSET_GAME_NAME + SHORT_TEXT_LEN) =~= data.subrange(
        OFFSET_GAME_NAME as int,
        OFFSET_DEVELOPER_NAME as int,
    ));
    assert(data.subrange(OFFSET_DEVELOPER_NAME as int, OFFSET_DEVELOPER_NAME + SHORT_TEXT_LEN)
        =~= data.subrange(OFFSET_DEVELOPER_NAME as int, OFFSET_FULL_GAME_NAME as int));
    assert(data.subrange(OFFSET_FULL_GAME_NAME as int, OFFSET_FULL_GAME_NAME + LONG_TEXT_LEN)
        =~= data.subrange(OFFSET_FULL_GAME_NAME as int, OFFSET_FULL_DEVELOPER_NAME as int));
    assert(data.subrange(OFFSET_FULL_DEVELOPER_NAME as int, OFFSET_FULL_DEVELOPER_NAME + LONG_TEXT_LEN)
        =~= data.subrange(OFFSET_FULL_DEVELOPER_NAME as int, OFFSET_GAME_DESCRIPTION as int));
    assert(data.subrange(OFFSET_GAME_DESCRIPTION as int, OFFSET_GAME_DESCRIPTION + DESCRIPTION_LEN)
        =~= data.subrange(OFFSET_GAME_DESCRIPTION as int, BANNER_LEN as int));
    assert(data.subrange(0, 4) == b.magic@);
    if parsed_from(p, japanese, data) {
        assert(p.magic@ =~= b.magic@);
    }
}

} // verus!
