//! Conversion between RGBA images and GameCube textures, which store their
//! pixels in tiles of 4x4 pixels, row by row of tiles.
use super::rgb5a3;
use vstd::arithmetic::div_mod::lemma_fundamental_div_mod_converse;
use vstd::prelude::*;

verus! {

/// Width and height in pixels of one tile.
pub const TILE_WIDTH: usize = 4;

pub const TILE_HEIGHT: usize = 4;

/// Bytes of one RGBA pixel.
pub const RGBA_BYTES_PER_PIXEL: usize = 4;

/// The raster index (`y * width + x`) of the `k`-th pixel in tile order.
pub open spec fn tile_pixel(width: int, k: int) -> int {
    let tiles = width / 4;
    let tile = k / 16;
    let within = k % 16;
    (tile / tiles * 4 + within / 4) * width + (tile % tiles * 4 + within % 4)
}

/// The position in tile order of the pixel with raster index `i`.
pub open spec fn tile_chunk(width: int, i: int) -> int {
    let y = i / width;
    let x = i % width;
    ((y / 4) * (width / 4) + x / 4) * 16 + (y % 4) * 4 + x % 4
}

/// The dimensions of an image made of whole tiles (none at all where a
/// dimension is zero).
pub open spec fn tiled(width: int, height: int) -> bool {
    width >= 0 && height >= 0 && width % 4 == 0 && height % 4 == 0
}

/// A pixel exists only in an image whose dimensions are both positive.
proof fn lemma_nonempty(width: int, height: int, k: int)
    requires
        width >= 0,
        height >= 0,
        0 <= k < width * height,
    ensures
        width > 0,
        height > 0,
{
    assert(width > 0 && height > 0) by (nonlinear_arith)
        requires
            width >= 0,
            height >= 0,
            0 <= k < width * height,
    ;
}

proof fn lemma_split(x: int, d: int) -> (qr: (int, int))
    requires
        d > 0,
        x >= 0,
    ensures
        x == qr.0 * d + qr.1,
        0 <= qr.1 < d,
        qr.0 >= 0,
        qr.0 == x / d,
        qr.1 == x % d,
{
    let q = x / d;
    let r = x % d;
    assert(x == q * d + r && 0 <= r < d && q >= 0) by (nonlinear_arith)
        requires
            d > 0,
            x >= 0,
            q == x / d,
            r == x % d,
    ;
    (q, r)
}

/// The `k`-th pixel in tile order lies in the image, and is the pixel whose
/// tile-order position is `k`.
pub proof fn lemma_tile_pixel(width: int, height: int, k: int)
    requires
        tiled(width, height),
        0 <= k < width * height,
    ensures
        0 <= tile_pixel(width, k) < width * height,
        tile_chunk(width, tile_pixel(width, k)) == k,
        0 <= (k / 16 / (width / 4) * 4 + (k % 16) / 4) * width <= tile_pixel(width, k),
        0 <= k / 16 / (width / 4) * 4 + (k % 16) / 4,
        0 <= k / 16 % (width / 4) * 4 + (k % 16) % 4,
        width > 0,
        height > 0,
{
    lemma_nonempty(width, height, k);
    let tw = width / 4;
    let th = height / 4;
    assert(width == 4 * tw && height == 4 * th && tw > 0 && th > 0);
    let (tile, within) = lemma_split(k, 16);
    let (row, col) = lemma_split(tile, tw);
    let (wy, wx) = lemma_split(within, 4);
    assert(tile < tw * th) by (nonlinear_arith)
        requires
            k == tile * 16 + within,
            0 <= within,
            k < width * height,
            width == 4 * tw,
            height == 4 * th,
    ;
    assert(row < th) by (nonlinear_arith)
        requires
            tile == row * tw + col,
            0 <= col,
            tile < tw * th,
            tw > 0,
    ;
    let y = row * 4 + wy;
    let x = col * 4 + wx;
    assert(y < height && x < width);
    assert(tile_pixel(width, k) == y * width + x);
    assert(0 <= y * width <= y * width + x < width * height) by (nonlinear_arith)
        requires
            0 <= y < height,
            0 <= x < width,
    ;
    lemma_fundamental_div_mod_converse(y * width + x, width, y, x);
    lemma_fundamental_div_mod_converse(y, 4, row, wy);
    lemma_fundamental_div_mod_converse(x, 4, col, wx);
    assert(tile_chunk(width, y * width + x) == (row * tw + col) * 16 + wy * 4 + wx);
}

/// The pixel with raster index `i` has a position in tile order inside the
/// image, and that position leads back to it.
pub proof fn lemma_tile_chunk(width: int, height: int, i: int)
    requires
        tiled(width, height),
        0 <= i < width * height,
    ensures
        0 <= tile_chunk(width, i) < width * height,
        tile_pixel(width, tile_chunk(width, i)) == i,
        0 <= (i / width / 4) * (width / 4) + (i % width) / 4,
        ((i / width / 4) * (width / 4) + (i % width) / 4) * 16 <= tile_chunk(width, i),
        width > 0,
        height > 0,
{
    lemma_nonempty(width, height, i);
    let tw = width / 4;
    let th = height / 4;
    assert(width == 4 * tw && height == 4 * th && tw > 0 && th > 0);
    let (y, x) = lemma_split(i, width);
    assert(y < height) by (nonlinear_arith)
        requires
            i == y * width + x,
            0 <= x,
            i < width * height,
            width > 0,
    ;
    let (row, wy) = lemma_split(y, 4);
    let (col, wx) = lemma_split(x, 4);
    assert(row < th && col < tw);
    let tile = row * tw + col;
    let within = wy * 4 + wx;
    let k = tile * 16 + within;
    assert(tile_chunk(width, i) == k);
    assert(0 <= tile < tw * th) by (nonlinear_arith)
        requires
            0 <= row < th,
            0 <= col < tw,
            tile == row * tw + col,
    ;
    assert(0 <= k < width * height) by (nonlinear_arith)
        requires
            0 <= tile < tw * th,
            0 <= within < 16,
            k == tile * 16 + within,
            width == 4 * tw,
            height == 4 * th,
    ;
    lemma_fundamental_div_mod_converse(k, 16, tile, within);
    lemma_fundamental_div_mod_converse(tile, tw, row, col);
    lemma_fundamental_div_mod_converse(within, 4, wy, wx);
}

/// The bytes of the `n`-th cell of `len` bytes in `s`.
pub open spec fn cell(s: Seq<u8>, len: int, n: int) -> Seq<u8> {
    s.subrange(n * len, n * len + len)
}

/// The RGBA pixel of `dst` with raster index `i` is what `decode_pixel` gives
/// for the encoded pixel at the matching position in tile order of `src`.
pub open spec fn decoded_pixel<F: Fn(&[u8]) -> [u8; 4]>(
    decode_pixel: F,
    src: Seq<u8>,
    bpp: int,
    width: int,
    i: int,
    out: Seq<u8>,
) -> bool {
    exists|x: &[u8], r: [u8; 4]|
        #![trigger call_ensures(decode_pixel, (x,), r)]
        x@ == cell(src, bpp, tile_chunk(width, i)) && call_ensures(decode_pixel, (x,), r) && out
            == r@
}

/// The `k`-th encoded pixel of `dst` is what `encode_pixel` gives for the RGBA
/// pixel of `src` that comes `k`-th in tile order.
pub open spec fn encoded_pixel<F: Fn(&[u8]) -> Vec<u8>>(
    encode_pixel: F,
    src: Seq<u8>,
    width: int,
    k: int,
    out: Seq<u8>,
) -> bool {
    exists|x: &[u8], r: Vec<u8>|
        #![trigger call_ensures(encode_pixel, (x,), r)]
        x@ == cell(src, 4, tile_pixel(width, k)) && call_ensures(encode_pixel, (x,), r) && out
            == r@
}

proof fn lemma_cell_in(len: int, n: int, total: int)
    requires
        len > 0,
        0 <= n < total,
    ensures
        0 <= n * len,
        n * len + len <= total * len,
{
    assert(0 <= n * len && n * len + len <= total * len) by (nonlinear_arith)
        requires
            len > 0,
            0 <= n < total,
    ;
}

/// Decodes a tiled texture `src`, `encoded_bytes_per_pixel` bytes per pixel,
/// into the RGBA image `dst`, one pixel at a time through `decode_pixel`.
pub fn decode<F: Fn(&[u8]) -> [u8; 4]>(
    src: &[u8],
    dst: &mut [u8],
    dims: (usize, usize),
    encoded_bytes_per_pixel: usize,
    decode_pixel: F,
)
    requires
        tiled(dims.0 as int, dims.1 as int),
        encoded_bytes_per_pixel > 0,
        dims.0 * dims.1 * encoded_bytes_per_pixel <= src@.len(),
        dims.0 * dims.1 * 4 <= old(dst)@.len(),
        forall|x: &[u8]| x@.len() == encoded_bytes_per_pixel ==> call_requires(decode_pixel, (x,)),
    ensures
        final(dst)@.len() == old(dst)@.len(),
        forall|i: int|
            0 <= i < dims.0 * dims.1 ==> #[trigger] decoded_pixel(
                decode_pixel,
                src@,
                encoded_bytes_per_pixel as int,
                dims.0 as int,
                i,
                cell(final(dst)@, 4, i),
            ),
        forall|j: int|
            dims.0 * dims.1 * 4 <= j < old(dst)@.len() ==> #[trigger] final(dst)@[j]
                == old(dst)@[j],
{
    let (width, height) = dims;
    let bpp = encoded_bytes_per_pixel;
    let _slen = src.len();
    let _dlen0 = dst.len();
    assert(width * height <= width * height * bpp) by (nonlinear_arith)
        requires
            bpp > 0,
            width * height >= 0,
    ;
    assert(width * height <= width * height * 4);
    let total = width * height;
    let columns = width / TILE_WIDTH;
    let ghost d0 = dst@;
    let _dlen = dst.len();
    proof {
        assert(total <= total * bpp) by (nonlinear_arith)
            requires
                bpp > 0,
                total >= 0,
        ;
    }
    let mut i: usize = 0;
    while i < total
        invariant
            total == width * height,
            tiled(width as int, height as int),
            columns == width / 4,
            bpp == encoded_bytes_per_pixel,
            bpp > 0,
            total * bpp <= src@.len(),
            src@.len() <= usize::MAX,
            total * 4 <= d0.len(),
            d0.len() <= usize::MAX,
            dst@.len() == d0.len(),
            i <= total,
            forall|x: &[u8]| x@.len() == bpp ==> call_requires(decode_pixel, (x,)),
            forall|n: int|
                0 <= n < i ==> #[trigger] decoded_pixel(
                    decode_pixel,
                    src@,
                    bpp as int,
                    width as int,
                    n,
                    cell(dst@, 4, n),
                ),
            forall|j: int| i * 4 <= j < d0.len() ==> #[trigger] dst@[j] == d0[j],
        decreases total - i,
    {
        proof {
            lemma_tile_chunk(width as int, height as int, i as int);
        }
        let y = i / width;
        let x = i % width;
        let chunk = ((y / TILE_HEIGHT) * columns + x / TILE_WIDTH) * 16 + (y % TILE_HEIGHT)
            * TILE_WIDTH + x % TILE_WIDTH;
        proof {
            lemma_tile_chunk(width as int, height as int, i as int);
            lemma_cell_in(bpp as int, chunk as int, total as int);
            lemma_cell_in(4, i as int, total as int);
            assert(chunk == tile_chunk(width as int, i as int));
        }
        let start = chunk * bpp;
        let pixel = &src[start..start + bpp];
        let rgba = decode_pixel(pixel);
        let ghost before = dst@;
        let base = i * RGBA_BYTES_PER_PIXEL;
        dst[base] = rgba[0];
        dst[base + 1] = rgba[1];
        dst[base + 2] = rgba[2];
        dst[base + 3] = rgba[3];
        proof {
            assert(cell(dst@, 4, i as int) =~= rgba@);
            assert(decoded_pixel(decode_pixel, src@, bpp as int, width as int, i as int, cell(dst@, 4, i as int)));
            assert forall|n: int| 0 <= n < i implies #[trigger] decoded_pixel(
                decode_pixel,
                src@,
                bpp as int,
                width as int,
                n,
                cell(dst@, 4, n),
            ) by {
                lemma_cell_in(4, n, i as int);
                assert(cell(dst@, 4, n) =~= cell(before, 4, n));
            }
        }
        i = i + 1;
    }
}

/// Encodes the RGBA image `src` into the tiled texture `dst`,
/// `encoded_bytes_per_pixel` bytes per pixel, through `encode_pixel`.
pub fn encode<F: Fn(&[u8]) -> Vec<u8>>(
    src: &[u8],
    dst: &mut [u8],
    dims: (usize, usize),
    encoded_bytes_per_pixel: usize,
    encode_pixel: F,
)
    requires
        tiled(dims.0 as int, dims.1 as int),
        encoded_bytes_per_pixel > 0,
        dims.0 * dims.1 * 4 <= src@.len(),
        dims.0 * dims.1 * encoded_bytes_per_pixel <= old(dst)@.len(),
        forall|x: &[u8]| x@.len() == 4 ==> call_requires(encode_pixel, (x,)),
        forall|x: &[u8], r: Vec<u8>|
            call_ensures(encode_pixel, (x,), r) ==> r@.len() == encoded_bytes_per_pixel,
    ensures
        final(dst)@.len() == old(dst)@.len(),
        forall|k: int|
            0 <= k < dims.0 * dims.1 ==> #[trigger] encoded_pixel(
                encode_pixel,
                src@,
                dims.0 as int,
                k,
                cell(final(dst)@, encoded_bytes_per_pixel as int, k),
            ),
        forall|j: int|
            dims.0 * dims.1 * encoded_bytes_per_pixel <= j < old(dst)@.len()
                ==> #[trigger] final(dst)@[j] == old(dst)@[j],
{
    let (width, height) = dims;
    let bpp = encoded_bytes_per_pixel;
    let _slen = src.len();
    let _dlen0 = dst.len();
    assert(width * height <= width * height * bpp) by (nonlinear_arith)
        requires
            bpp > 0,
            width * height >= 0,
    ;
    assert(width * height <= width * height * 4);
    let total = width * height;
    let columns = width / TILE_WIDTH;
    let ghost d0 = dst@;
    let _dlen = dst.len();
    let mut k: usize = 0;
    while k < total
        invariant
            total == width * height,
            tiled(width as int, height as int),
            columns == width / 4,
            bpp == encoded_bytes_per_pixel,
            bpp > 0,
            total * 4 <= src@.len(),
            src@.len() <= usize::MAX,
            total * bpp <= d0.len(),
            d0.len() <= usize::MAX,
            dst@.len() == d0.len(),
            k <= total,
            forall|x: &[u8]| x@.len() == 4 ==> call_requires(encode_pixel, (x,)),
            forall|x: &[u8], r: Vec<u8>| call_ensures(encode_pixel, (x,), r) ==> r@.len() == bpp,
            forall|n: int|
                0 <= n < k ==> #[trigger] encoded_pixel(
                    encode_pixel,
                    src@,
                    width as int,
                    n,
                    cell(dst@, bpp as int, n),
                ),
            forall|j: int| k * bpp <= j < d0.len() ==> #[trigger] dst@[j] == d0[j],
        decreases total - k,
    {
        proof {
            lemma_tile_pixel(width as int, height as int, k as int);
        }
        let tile = k / 16;
        let within = k % 16;
        let y = tile / columns * TILE_HEIGHT + within / TILE_WIDTH;
        let x = tile % columns * TILE_WIDTH + within % TILE_WIDTH;
        proof {
            lemma_tile_pixel(width as int, height as int, k as int);
            assert(y * width + x == tile_pixel(width as int, k as int));
            lemma_cell_in(4, y * width + x, total as int);
            lemma_cell_in(bpp as int, k as int, total as int);
        }
        let pixel_index = RGBA_BYTES_PER_PIXEL * (y * width + x);
        let pixel = &src[pixel_index..pixel_index + RGBA_BYTES_PER_PIXEL];
        let encoded = encode_pixel(pixel);
        let ghost before = dst@;
        let base = k * bpp;
        let mut m: usize = 0;
        while m < bpp
            invariant
                encoded@.len() == bpp,
                base == k * bpp,
                base + bpp <= dst@.len(),
                dst@.len() == before.len(),
                dst@.len() <= usize::MAX,
                m <= bpp,
                forall|j: int| 0 <= j < base ==> #[trigger] dst@[j] == before[j],
                forall|j: int| base + bpp <= j < before.len() ==> #[trigger] dst@[j] == before[j],
                forall|j: int| 0 <= j < m ==> #[trigger] dst@[base + j] == encoded@[j],
            decreases bpp - m,
        {
            dst[base + m] = encoded[m];
            m = m + 1;
        }
        proof {
            assert((k + 1) * bpp == k * bpp + bpp) by (nonlinear_arith);
            assert forall|j: int| 0 <= j < bpp implies #[trigger] cell(dst@, bpp as int, k as int)[j]
                == encoded@[j] by {
                assert(dst@[base + j] == encoded@[j]);
            }
            assert(cell(dst@, bpp as int, k as int) =~= encoded@);
            assert(encoded_pixel(encode_pixel, src@, width as int, k as int, cell(dst@, bpp as int, k as int)));
            assert forall|n: int| 0 <= n < k implies #[trigger] encoded_pixel(
                encode_pixel,
                src@,
                width as int,
                n,
                cell(dst@, bpp as int, n),
            ) by {
                lemma_cell_in(bpp as int, n, k as int);
                assert(cell(dst@, bpp as int, n) =~= cell(before, bpp as int, n));
            }
        }
        k = k + 1;
    }
}


/// `decode_pixel` undoes `encode_pixel`: decoding what an RGBA pixel encodes
/// to gives the pixel back.
pub open spec fn undoes<E: Fn(&[u8]) -> Vec<u8>, D: Fn(&[u8]) -> [u8; 4]>(
    decode_pixel: D,
    encode_pixel: E,
) -> bool {
    forall|x: &[u8], y: Vec<u8>, z: &[u8], q: [u8; 4]|
        #![trigger call_ensures(encode_pixel, (x,), y), call_ensures(decode_pixel, (z,), q)]
        x@.len() == 4 && call_ensures(encode_pixel, (x,), y) && z@ == y@ && call_ensures(
            decode_pixel,
            (z,),
            q,
        ) ==> q@ == x@
}

/// Encoding an image into tiles and decoding the tiles again gives the image
/// back, pixel for pixel, where the pixel decoder undoes the pixel encoder:
/// `encode` and `decode` walk the tiles in the same order.
pub proof fn lemma_tile_round_trip<E: Fn(&[u8]) -> Vec<u8>, D: Fn(&[u8]) -> [u8; 4]>(
    encode_pixel: E,
    decode_pixel: D,
    image: Seq<u8>,
    texture: Seq<u8>,
    out: Seq<u8>,
    width: int,
    height: int,
    bpp: int,
)
    requires
        tiled(width, height),
        bpp > 0,
        width * height * 4 <= image.len(),
        undoes(decode_pixel, encode_pixel),
        forall|k: int|
            0 <= k < width * height ==> #[trigger] encoded_pixel(
                encode_pixel,
                image,
                width,
                k,
                cell(texture, bpp, k),
            ),
        forall|i: int|
            0 <= i < width * height ==> #[trigger] decoded_pixel(
                decode_pixel,
                texture,
                bpp,
                width,
                i,
                cell(out, 4, i),
            ),
    ensures
        forall|i: int| 0 <= i < width * height ==> #[trigger] cell(out, 4, i) == cell(image, 4, i),
{
    assert forall|i: int| 0 <= i < width * height implies #[trigger] cell(out, 4, i) == cell(
        image,
        4,
        i,
    ) by {
        lemma_tile_chunk(width, height, i);
        let c = tile_chunk(width, i);
        assert(decoded_pixel(decode_pixel, texture, bpp, width, i, cell(out, 4, i)));
        let (z, q) = choose|z: &[u8], q: [u8; 4]|
            z@ == cell(texture, bpp, c) && call_ensures(decode_pixel, (z,), q) && cell(out, 4, i) == q@;
        assert(encoded_pixel(encode_pixel, image, width, c, cell(texture, bpp, c)));
        let (x, y) = choose|x: &[u8], y: Vec<u8>|
            x@ == cell(image, 4, tile_pixel(width, c)) && call_ensures(encode_pixel, (x,), y) && cell(
                texture,
                bpp,
                c,
            ) == y@;
        assert(x@ == cell(image, 4, i));
        lemma_cell_in(4, i, width * height);
        assert(x@.len() == 4);
        assert(q@ == x@);
    }
}

/// The RGBA pixel with raster index `i` of the image that the RGB5A3 texture
/// `src` holds.
pub open spec fn rgba_of_rgb5a3(src: Seq<u8>, width: int, i: int) -> Seq<u8> {
    let c = tile_chunk(width, i);
    rgb5a3::spec_to_rgba(src[2 * c], src[2 * c + 1])
}

/// The `k`-th (in tile order) RGB5A3 pixel of the texture of the RGBA image `src`.
pub open spec fn rgb5a3_of_rgba(src: Seq<u8>, width: int, k: int) -> Seq<u8> {
    let p = tile_pixel(width, k);
    rgb5a3::spec_from_rgba(src[4 * p], src[4 * p + 1], src[4 * p + 2], src[4 * p + 3])
}

/// Decodes the RGB5A3 texture `src` into the RGBA image `dst`.
pub fn decode_rgb5a3(src: &[u8], dst: &mut [u8], dims: (usize, usize))
    requires
        tiled(dims.0 as int, dims.1 as int),
        dims.0 * dims.1 * 2 <= src@.len(),
        dims.0 * dims.1 * 4 <= old(dst)@.len(),
    ensures
        final(dst)@.len() == old(dst)@.len(),
        forall|i: int|
            0 <= i < dims.0 * dims.1 ==> #[trigger] cell(final(dst)@, 4, i) == rgba_of_rgb5a3(
                src@,
                dims.0 as int,
                i,
            ),
        forall|j: int|
            dims.0 * dims.1 * 4 <= j < old(dst)@.len() ==> #[trigger] final(dst)@[j]
                == old(dst)@[j],
{
    let f = |p: &[u8]| -> (r: [u8; 4])
        requires
            p@.len() >= 2,
        ensures
            r@ == rgb5a3::spec_to_rgba(p@[0], p@[1]),
        { rgb5a3::to_rgba(p) };
    decode(src, dst, dims, rgb5a3::BYTES_PER_PIXEL, f);
    proof {
        assert forall|i: int| 0 <= i < dims.0 * dims.1 implies #[trigger] cell(dst@, 4, i)
            == rgba_of_rgb5a3(src@, dims.0 as int, i) by {
            assert(decoded_pixel(f, src@, 2, dims.0 as int, i, cell(dst@, 4, i)));
            let (x, r) = choose|x: &[u8], r: [u8; 4]|
                x@ == cell(src@, 2, tile_chunk(dims.0 as int, i)) && call_ensures(f, (x,), r)
                    && cell(dst@, 4, i) == r@;
            lemma_tile_chunk(dims.0 as int, dims.1 as int, i);
        }
    }
}

/// Encodes the RGBA image `src` into the RGB5A3 texture `dst`.
pub fn encode_rgb5a3(src: &[u8], dst: &mut [u8], dims: (usize, usize))
    requires
        tiled(dims.0 as int, dims.1 as int),
        dims.0 * dims.1 * 4 <= src@.len(),
        dims.0 * dims.1 * 2 <= old(dst)@.len(),
    ensures
        final(dst)@.len() == old(dst)@.len(),
        forall|k: int|
            0 <= k < dims.0 * dims.1 ==> #[trigger] cell(final(dst)@, 2, k) == rgb5a3_of_rgba(
                src@,
                dims.0 as int,
                k,
            ),
        forall|j: int|
            dims.0 * dims.1 * 2 <= j < old(dst)@.len() ==> #[trigger] final(dst)@[j]
                == old(dst)@[j],
{
    let f = |p: &[u8]| -> (r: Vec<u8>)
        requires
            p@.len() >= 4,
        ensures
            r@ == rgb5a3::spec_from_rgba(p@[0], p@[1], p@[2], p@[3]),
        {
            let e = rgb5a3::from_rgba(p);
            let mut v = Vec::new();
            v.push(e[0]);
            v.push(e[1]);
            assert(v@ =~= e@);
            v
        };
    encode(src, dst, dims, rgb5a3::BYTES_PER_PIXEL, f);
    proof {
        assert forall|k: int| 0 <= k < dims.0 * dims.1 implies #[trigger] cell(dst@, 2, k)
            == rgb5a3_of_rgba(src@, dims.0 as int, k) by {
            assert(encoded_pixel(f, src@, dims.0 as int, k, cell(dst@, 2, k)));
            let (x, r) = choose|x: &[u8], r: Vec<u8>|
                x@ == cell(src@, 4, tile_pixel(dims.0 as int, k)) && call_ensures(f, (x,), r)
                    && cell(dst@, 2, k) == r@;
            lemma_tile_pixel(dims.0 as int, dims.1 as int, k);
        }
    }
}

/// Encoding an image that was decoded from an RGB5A3 texture gives back that
/// texture: whatever pixel by pixel decoding yields, pixel by pixel encoding
/// turns back into the same bytes.
pub proof fn lemma_encode_of_decode(texture: Seq<u8>, image: Seq<u8>, width: int, height: int)
    requires
        tiled(width, height),
        width * height * 2 <= texture.len(),
        width * height * 4 <= image.len(),
        forall|i: int|
            0 <= i < width * height ==> #[trigger] cell(image, 4, i) == rgba_of_rgb5a3(
                texture,
                width,
                i,
            ),
    ensures
        forall|k: int|
            0 <= k < width * height ==> #[trigger] rgb5a3_of_rgba(image, width, k) == cell(
                texture,
                2,
                k,
            ),
{
    assert forall|k: int| 0 <= k < width * height implies #[trigger] rgb5a3_of_rgba(
        image,
        width,
        k,
    ) == cell(texture, 2, k) by {
        lemma_tile_pixel(width, height, k);
        let p = tile_pixel(width, k);
        lemma_cell_in(4, p, width * height);
        lemma_cell_in(2, k, width * height);
        let c = cell(image, 4, p);
        assert(c == rgba_of_rgb5a3(texture, width, p));
        assert(image[4 * p] == c[0] && image[4 * p + 1] == c[1] && image[4 * p + 2] == c[2]
            && image[4 * p + 3] == c[3]);
        rgb5a3::lemma_from_rgba_of_to_rgba(texture[2 * k], texture[2 * k + 1]);
        assert(cell(texture, 2, k) =~= seq![texture[2 * k], texture[2 * k + 1]]);
    }
}

} // verus!
