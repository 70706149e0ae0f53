//! Binary texture images (BTI), the game's texture files.
use vstd::prelude::*;

verus! {

/// The pixel formats of a texture.
#[derive(Clone, Copy, PartialEq, Eq, Structural, Debug)]
pub enum Format {
    I4,
    I8,
    IA4,
    IA8,
    RGB565,
    RGB5A3,
    RGBA32,
    C4,
    C8,
    C14X2,
    CMPR,
}

/// The byte that stands for a format in a texture's header.
pub open spec fn format_code(f: Format) -> u8 {
    match f {
        Format::I4 => 0x00,
        Format::I8 => 0x01,
        Format::IA4 => 0x02,
        Format::IA8 => 0x03,
        Format::RGB565 => 0x04,
        Format::RGB5A3 => 0x05,
        Format::RGBA32 => 0x06,
        Format::C4 => 0x08,
        Format::C8 => 0x09,
        Format::C14X2 => 0x0A,
        Format::CMPR => 0x0E,
    }
}

impl Format {
    /// The byte that stands for this format in a texture's header.
    pub fn code(self) -> (r: u8)
        ensures
            r == format_code(self),
    {
        match self {
            Format::I4 => 0x00,
            Format::I8 => 0x01,
            Format::IA4 => 0x02,
            Format::IA8 => 0x03,
            Format::RGB565 => 0x04,
            Format::RGB5A3 => 0x05,
            Format::RGBA32 => 0x06,
            Format::C4 => 0x08,
            Format::C8 => 0x09,
            Format::C14X2 => 0x0A,
            Format::CMPR => 0x0E,
        }
    }
}

/// A texture: its header fields and its encoded images (the image and its
/// smaller copies).
pub struct Image {
    pub image_format: Format,
    pub enable_alpha: bool,
    pub width: u16,
    pub height: u16,
    pub wrap_s: u8,
    pub wrap_t: u8,
    pub palette_format: u16,
    pub palette_len: u16,
    pub encoded_images: Vec<Vec<u8>>,
}

/// The total length of `images`.
pub open spec fn total_len(images: Seq<Vec<u8>>) -> int
    decreases images.len(),
{
    if images.len() == 0 {
        0
    } else {
        total_len(images.drop_last()) + images.last()@.len()
    }
}

proof fn lemma_total_len_monotonic(images: Seq<Vec<u8>>, n: int)
    requires
        0 <= n <= images.len(),
    ensures
        total_len(images.subrange(0, n)) <= total_len(images),
    decreases images.len() - n,
{
    if n < images.len() {
        lemma_total_len_monotonic(images, n + 1);
        assert(images.subrange(0, n + 1).drop_last() =~= images.subrange(0, n));
    } else {
        assert(images.subrange(0, n) =~= images);
    }
}

impl Image {
    /// The size of the texture's file: a header of 0x20 bytes and the
    /// encoded images (whose total must fit in a `usize`).
    pub fn file_size(&self) -> (r: usize)
        requires
            0x20 + total_len(self.encoded_images@) <= usize::MAX,
        ensures
            r == 0x20 + total_len(self.encoded_images@),
    {
        let mut total: usize = 0;
        let mut i: usize = 0;
        while i < self.encoded_images.len()
            invariant
                0x20 + total_len(self.encoded_images@) <= usize::MAX,
                i <= self.encoded_images@.len(),
                total == total_len(self.encoded_images@.subrange(0, i as int)),
            decreases self.encoded_images@.len() - i,
        {
            proof {
                assert(self.encoded_images@.subrange(0, i + 1).drop_last() =~= self.encoded_images@.subrange(0, i as int));
                lemma_total_len_monotonic(self.encoded_images@, i + 1);
            }
            total = total + self.encoded_images[i].len();
            i = i + 1;
        }
        assert(self.encoded_images@.subrange(0, i as int) =~= self.encoded_images@);
        0x20 + total
    }
}

} // verus!
