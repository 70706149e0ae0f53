//! The RGB5A3 pixel format: two bytes per pixel, either an opaque
//! `1RRRRRGG GGGBBBBB` pixel or a translucent `0AAARRRR GGGGBBBB` pixel.
use vstd::prelude::*;

verus! {

/// Number of bytes that one RGB5A3 pixel occupies.
pub const BYTES_PER_PIXEL: usize = 2;

/// The RGBA colour that the RGB5A3 pixel `[x, y]` stands for.
pub open spec fn spec_to_rgba(x: u8, y: u8) -> Seq<u8> {
    if x >> 7u8 != 0 {
        let r = (x >> 2u8) & 0x1fu8;
        let g = ((x & 0x3u8) << 3u8) | (y >> 5u8);
        let b = y & 0x1fu8;
        seq![(8 * r) as u8, (8 * g) as u8, (8 * b) as u8, 0xffu8]
    } else {
        let a = (x >> 4u8) & 0x7u8;
        let r = x & 0xfu8;
        let g = (y >> 4u8) & 0xfu8;
        let b = y & 0xfu8;
        seq![(0x11 * r) as u8, (0x11 * g) as u8, (0x11 * b) as u8, (0x20 * a) as u8]
    }
}

/// The saturating sum of two bytes.
pub open spec fn sat_add(a: u8, b: u8) -> u8 {
    if a + b > 255 { 255u8 } else { (a + b) as u8 }
}

/// The RGB5A3 pixel that stands for the RGBA colour `[r, g, b, a]`: opaque when
/// `a >= 0xF0`, each channel rounded to the nearest step of the target width.
pub open spec fn spec_from_rgba(r: u8, g: u8, b: u8, a: u8) -> Seq<u8> {
    if a >= 0xf0 {
        let r5 = (sat_add(r, 4) / 8) as u8;
        let g5 = (sat_add(g, 4) / 8) as u8;
        let b5 = (sat_add(b, 4) / 8) as u8;
        seq![(0x80u8 | (r5 << 2u8) | (g5 >> 3u8)) as u8, ((g5 << 5u8) | b5) as u8]
    } else {
        let r4 = (sat_add(r, 8) / 0x11) as u8;
        let g4 = (sat_add(g, 8) / 0x11) as u8;
        let b4 = (sat_add(b, 8) / 0x11) as u8;
        let a3 = (sat_add(a, 0x10) / 0x20) as u8;
        seq![((a3 << 4u8) | r4) as u8, ((g4 << 4u8) | b4) as u8]
    }
}

/// Decodes the RGB5A3 pixel held in the first two bytes of `v` into RGBA.
pub fn to_rgba(v: &[u8]) -> (out: [u8; 4])
    requires
        v@.len() >= 2,
    ensures
        out@ == spec_to_rgba(v@[0], v@[1]),
{
    let x = v[0];
    let y = v[1];
    let high_bit = x >> 7u8;
    if high_bit != 0 {
        let r = (x >> 2u8) & 0x1fu8;
        let g = ((x & 0x3u8) << 3u8) | (y >> 5u8);
        let b = y & 0x1fu8;
        assert(r <= 31 && g <= 31 && b <= 31) by (bit_vector)
            requires
                r == (x >> 2u8) & 0x1fu8,
                g == ((x & 0x3u8) << 3u8) | (y >> 5u8),
                b == y & 0x1fu8,
        ;
        let out = [0x8 * r, 0x8 * g, 0x8 * b, 0xff];
        assert(out@ =~= spec_to_rgba(x, y));
        out
    } else {
        let a = (x >> 4u8) & 0x7u8;
        let r = x & 0xfu8;
        let g = (y >> 4u8) & 0xfu8;
        let b = y & 0xfu8;
        assert(a <= 7 && r <= 15 && g <= 15 && b <= 15) by (bit_vector)
            requires
                a == (x >> 4u8) & 0x7u8,
                r == x & 0xfu8,
                g == (y >> 4u8) & 0xfu8,
                b == y & 0xfu8,
        ;
        let out = [0x11 * r, 0x11 * g, 0x11 * b, 0x20 * a];
        assert(out@ =~= spec_to_rgba(x, y));
        out
    }
}

/// Encodes the RGBA colour held in the first four bytes of `v` as an RGB5A3 pixel.
pub fn from_rgba(v: &[u8]) -> (out: [u8; 2])
    requires
        v@.len() >= 4,
    ensures
        out@ == spec_from_rgba(v@[0], v@[1], v@[2], v@[3]),
{
    let r = v[0];
    let g = v[1];
    let b = v[2];
    let a = v[3];
    if a >= 0xf0 {
        let r = r.saturating_add(4) / 0x8;
        let g = g.saturating_add(4) / 0x8;
        let b = b.saturating_add(4) / 0x8;
        let x = 0x80u8 | (r << 2u8) | (g >> 3u8);
        let y = (g << 5u8) | b;
        let out = [x, y];
        assert(out@ =~= spec_from_rgba(v@[0], v@[1], v@[2], v@[3]));
        out
    } else {
        let r = r.saturating_add(8) / 0x11;
        let g = g.saturating_add(8) / 0x11;
        let b = b.saturating_add(8) / 0x11;
        let a = a.saturating_add(0x10) / 0x20;
        let x = (a << 4u8) | r;
        let y = (g << 4u8) | b;
        let out = [x, y];
        assert(out@ =~= spec_from_rgba(v@[0], v@[1], v@[2], v@[3]));
        out
    }
}

/// Encoding the colour that a pixel decodes to gives back that pixel: RGB5A3
/// loses nothing on its way through RGBA.
pub proof fn lemma_from_rgba_of_to_rgba(x: u8, y: u8)
    ensures
        ({
            let c = spec_to_rgba(x, y);
            spec_from_rgba(c[0], c[1], c[2], c[3]) == seq![x, y]
        }),
{
    let c = spec_to_rgba(x, y);
    if x >> 7u8 != 0 {
        let r = (x >> 2u8) & 0x1fu8;
        let g = ((x & 0x3u8) << 3u8) | (y >> 5u8);
        let b = y & 0x1fu8;
        assert(r <= 31 && g <= 31 && b <= 31) by (bit_vector)
            requires r == (x >> 2u8) & 0x1fu8, g == ((x & 0x3u8) << 3u8) | (y >> 5u8), b == y & 0x1fu8;
        assert(sat_add((8 * r) as u8, 4) / 8 == r);
        assert(sat_add((8 * g) as u8, 4) / 8 == g);
        assert(sat_add((8 * b) as u8, 4) / 8 == b);
        assert((0x80u8 | (r << 2u8) | (g >> 3u8)) == x && ((g << 5u8) | b) == y) by (bit_vector)
            requires
                x >> 7u8 != 0,
                r == (x >> 2u8) & 0x1fu8,
                g == ((x & 0x3u8) << 3u8) | (y >> 5u8),
                b == y & 0x1fu8,
        ;
        assert(spec_from_rgba(c[0], c[1], c[2], c[3]) =~= seq![x, y]);
    } else {
        let a = (x >> 4u8) & 0x7u8;
        let r = x & 0xfu8;
        let g = (y >> 4u8) & 0xfu8;
        let b = y & 0xfu8;
        assert(a <= 7 && r <= 15 && g <= 15 && b <= 15) by (bit_vector)
            requires a == (x >> 4u8) & 0x7u8, r == x & 0xfu8, g == (y >> 4u8) & 0xfu8, b == y & 0xfu8;
        assert(sat_add((0x11 * r) as u8, 8) / 0x11 == r);
        assert(sat_add((0x11 * g) as u8, 8) / 0x11 == g);
        assert(sat_add((0x11 * b) as u8, 8) / 0x11 == b);
        assert(sat_add((0x20 * a) as u8, 0x10) / 0x20 == a);
        assert(((a << 4u8) | r) == x && ((g << 4u8) | b) == y) by (bit_vector)
            requires
                x >> 7u8 == 0,
                a == (x >> 4u8) & 0x7u8,
                r == x & 0xfu8,
                g == (y >> 4u8) & 0xfu8,
                b == y & 0xfu8,
        ;
        assert(spec_from_rgba(c[0], c[1], c[2], c[3]) =~= seq![x, y]);
    }
}

/// `x` lies within `d` of `y`.
pub open spec fn within(x: u8, y: u8, d: int) -> bool {
    -d <= x - y <= d
}

/// A channel rounded to five bits (steps of 8) or four bits (steps of 0x11),
/// saturating at 255, and scaled back lies within 8 of where it was.
proof fn lemma_channel(v: u8)
    ensures
        (8 * (sat_add(v, 4) / 8)) as u8 == 8 * (sat_add(v, 4) / 8),
        within((8 * (sat_add(v, 4) / 8)) as u8, v, 8),
        sat_add(v, 4) / 8 <= 31,
        within((0x11 * (sat_add(v, 8) / 0x11)) as u8, v, 8),
        sat_add(v, 8) / 0x11 <= 15,
{
}

/// Decoding the pixel that an RGBA colour encodes to gives each colour
/// channel back within 8, and the alpha channel as fully opaque where it was
/// at least `0xF0`, else within 16.
pub proof fn lemma_to_rgba_of_from_rgba(r: u8, g: u8, b: u8, a: u8)
    ensures
        ({
            let p = spec_from_rgba(r, g, b, a);
            let o = spec_to_rgba(p[0], p[1]);
            &&& within(o[0], r, 8)
            &&& within(o[1], g, 8)
            &&& within(o[2], b, 8)
            &&& if a >= 0xf0 { o[3] == 0xff } else { within(o[3], a, 16) }
        }),
{
    lemma_channel(r);
    lemma_channel(g);
    lemma_channel(b);
    let p = spec_from_rgba(r, g, b, a);
    if a >= 0xf0 {
        let r5 = (sat_add(r, 4) / 8) as u8;
        let g5 = (sat_add(g, 4) / 8) as u8;
        let b5 = (sat_add(b, 4) / 8) as u8;
        let x = (0x80u8 | (r5 << 2u8) | (g5 >> 3u8)) as u8;
        let y = ((g5 << 5u8) | b5) as u8;
        assert(p[0] == x && p[1] == y);
        assert(x >> 7u8 != 0 && (x >> 2u8) & 0x1fu8 == r5 && ((x & 0x3u8) << 3u8) | (y >> 5u8) == g5 && y
            & 0x1fu8 == b5) by (bit_vector)
            requires
                r5 <= 31,
                g5 <= 31,
                b5 <= 31,
                x == (0x80u8 | (r5 << 2u8) | (g5 >> 3u8)) as u8,
                y == ((g5 << 5u8) | b5) as u8,
        ;
    } else {
        let r4 = (sat_add(r, 8) / 0x11) as u8;
        let g4 = (sat_add(g, 8) / 0x11) as u8;
        let b4 = (sat_add(b, 8) / 0x11) as u8;
        let a3 = (sat_add(a, 0x10) / 0x20) as u8;
        assert(a3 <= 7 && within((0x20 * a3) as u8, a, 16));
        let x = ((a3 << 4u8) | r4) as u8;
        let y = ((g4 << 4u8) | b4) as u8;
        assert(p[0] == x && p[1] == y);
        assert(x >> 7u8 == 0 && (x >> 4u8) & 0x7u8 == a3 && x & 0xfu8 == r4 && (y >> 4u8) & 0xfu8 == g4 && y
            & 0xfu8 == b4) by (bit_vector)
            requires
                r4 <= 15,
                g4 <= 15,
                b4 <= 15,
                a3 <= 7,
                x == ((a3 << 4u8) | r4) as u8,
                y == ((g4 << 4u8) | b4) as u8,
        ;
    }
}

} // verus!
