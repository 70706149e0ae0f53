//! The text encodings of banner files (Shift_JIS for Japanese games, UTF-8
//! otherwise), as provided by `encoding_rs`.
use encoding_rs::{SHIFT_JIS, UTF_8};
use vstd::prelude::*;
use vstd::utf8::*;

verus! {

/// The text that `encoding_rs` decodes the Shift_JIS bytes `bytes` into,
/// without replacement characters, or `None` where they are malformed.
pub uninterp spec fn shift_jis_decoded(bytes: Seq<u8>) -> Option<Seq<char>>;

/// The buffer `buffer` after `encoding_rs` has encoded `text` into it (with
/// `SHIFT_JIS` when `japanese`, else `UTF_8`).
pub uninterp spec fn encoder_output(japanese: bool, text: Seq<char>, buffer: Seq<u8>) -> Seq<u8>;

/// Bytes below `0x80` read as the characters of the same code.
pub open spec fn ascii_text(bytes: Seq<u8>) -> Seq<char> {
    Seq::new(bytes.len(), |i: int| bytes[i] as char)
}

pub open spec fn is_ascii_bytes(bytes: Seq<u8>) -> bool {
    forall|i: int| 0 <= i < bytes.len() ==> bytes[i] < 0x80
}

pub open spec fn is_ascii_chars(text: Seq<char>) -> bool {
    forall|i: int| 0 <= i < text.len() ==> (text[i] as u32) < 0x80
}

/// The bytes of the ASCII text `text`, one per character.
pub open spec fn ascii_bytes(text: Seq<char>) -> Seq<u8> {
    Seq::new(text.len(), |i: int| (text[i] as u32) as u8)
}

/// The text that `bytes` decode to (Shift_JIS when `japanese`, else UTF-8),
/// or `None` where they are malformed: ASCII bytes stand for themselves in
/// both, UTF-8 is decoded where it is valid, and what Shift_JIS makes of other
/// bytes is `shift_jis_decoded`.
pub open spec fn decoded_text(japanese: bool, bytes: Seq<u8>) -> Option<Seq<char>> {
    if japanese {
        if is_ascii_bytes(bytes) {
            Some(ascii_text(bytes))
        } else {
            shift_jis_decoded(bytes)
        }
    } else if valid_utf8(bytes) {
        Some(decode_utf8(bytes))
    } else {
        None
    }
}

/// Whether encoding `text` into a buffer of `len` bytes writes it out whole
/// and nothing more: in UTF-8 where its bytes fit; in Shift_JIS where it is
/// ASCII and fits with ten bytes to spare (the encoder keeps them in reserve
/// for a numeric character reference).
pub open spec fn writes_plainly(japanese: bool, text: Seq<char>, len: int) -> bool {
    if japanese {
        is_ascii_chars(text) && text.len() + 10 <= len
    } else {
        encode_utf8(text).len() <= len
    }
}

/// The bytes that `text` is written as where `writes_plainly` holds.
pub open spec fn plain_bytes(japanese: bool, text: Seq<char>) -> Seq<u8> {
    if japanese {
        ascii_bytes(text)
    } else {
        encode_utf8(text)
    }
}

/// The buffer `buffer` after `text` has been encoded into it: the text's bytes
/// and then the rest of the buffer as it was, where `writes_plainly` holds;
/// otherwise `encoder_output`.
pub open spec fn encoded_into(japanese: bool, text: Seq<char>, buffer: Seq<u8>) -> Seq<u8> {
    if writes_plainly(japanese, text, buffer.len() as int) {
        plain_bytes(japanese, text) + buffer.subrange(
            plain_bytes(japanese, text).len() as int,
            buffer.len() as int,
        )
    } else {
        encoder_output(japanese, text, buffer)
    }
}

/// `Encoding::decode_without_bom_handling_and_without_replacement` of
/// `encoding_rs` with `SHIFT_JIS` (when `japanese`) or `UTF_8`. Its source
/// shows, and this contract claims, that for both encodings ASCII bytes come
/// back as themselves, and that for UTF-8 it succeeds exactly on valid UTF-8
/// and then gives the text those bytes encode (`decoded_text`). What
/// Shift_JIS makes of other bytes is named `shift_jis_decoded`.
#[verifier::external_body]
pub(crate) fn decode_text(japanese: bool, bytes: &[u8]) -> (r: Option<String>)
    ensures
        match r {
            Some(s) => decoded_text(japanese, bytes@) == Some(s@),
            None => decoded_text(japanese, bytes@) is None,
        },
        japanese && !is_ascii_bytes(bytes@) ==> match r {
            Some(s) => shift_jis_decoded(bytes@) == Some(s@),
            None => shift_jis_decoded(bytes@) is None,
        },
{
    let encoding = if japanese { SHIFT_JIS } else { UTF_8 };
    encoding.decode_without_bom_handling_and_without_replacement(bytes).map(|t| t.into_owned())
}

/// `Encoder::encode_from_utf8` of `encoding_rs` (a fresh encoder of
/// `SHIFT_JIS` when `japanese`, else `UTF_8`, with `last` set) writing `text`
/// into `bytes[start..start + len]`; the rest of `bytes` is untouched. The
/// source shows, and this contract claims (`encoded_into`), that where
/// `writes_plainly` holds the region starts with the text's bytes and keeps
/// the rest as it was: the UTF-8 encoder copies the text's bytes when they
/// fit, and the Shift_JIS encoder copies ASCII byte for byte into the region
/// less its ten reserved bytes. Otherwise the region is named
/// `encoder_output` (the documentation leaves bytes after those written open).
#[verifier::external_body]
pub(crate) fn encode_text(japanese: bool, text: &str, bytes: &mut [u8], start: usize, len: usize)
    requires
        start + len <= old(bytes)@.len(),
    ensures
        final(bytes)@ == old(bytes)@.subrange(0, start as int) + encoded_into(
            japanese,
            text@,
            old(bytes)@.subrange(start as int, start + len),
        ) + old(bytes)@.subrange(start + len, old(bytes)@.len() as int),
        final(bytes)@.len() == old(bytes)@.len(),
        !writes_plainly(japanese, text@, len as int) ==> final(bytes)@.subrange(start as int, start + len)
            == encoder_output(japanese, text@, old(bytes)@.subrange(start as int, start + len)),
{
    let encoding = if japanese { SHIFT_JIS } else { UTF_8 };
    encoding.new_encoder().encode_from_utf8(text, &mut bytes[start..start + len], true);
}

} // verus!
