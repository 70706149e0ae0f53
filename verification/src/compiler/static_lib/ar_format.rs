//! The layout of a System V `ar` archive, as far as the linker checks it
//! before handing the archive to `goblin`: after the magic, a run of
//! members, each a 60-byte header (a 16-byte name, a decimal size, ...)
//! followed by its bytes, members starting on even offsets. The symbol index
//! (the member named `/`) maps symbols to the header offsets of members.
use crate::compiler::big_endian::{be_u32, read_be_u32};
use vstd::prelude::*;
use vstd::slice::slice_subrange;

verus! {

/// Length of a member header.
pub const HEADER_LEN: usize = 60;

pub open spec fn is_digit(b: u8) -> bool {
    48 <= b <= 57
}

/// The position of the first non-digit in `f` from `i` on.
pub open spec fn digits_end(f: Seq<u8>, i: int) -> int
    decreases f.len() - i,
{
    if 0 <= i < f.len() && is_digit(f[i]) {
        digits_end(f, i + 1)
    } else {
        i
    }
}

/// The number that the decimal digits `d` stand for.
pub open spec fn decimal_of(d: Seq<u8>) -> nat
    decreases d.len(),
{
    if d.len() == 0 {
        0
    } else {
        decimal_of(d.drop_last()) * 10 + (d.last() - 48) as nat
    }
}

/// The size field `f` of a header: decimal digits (at least one) followed by
/// spaces only; `None` for any other field.
pub open spec fn size_field(f: Seq<u8>) -> Option<nat> {
    let d = digits_end(f, 0);
    if d >= 1 && forall|i: int| d <= i < f.len() ==> f[i] == 32 {
        Some(decimal_of(f.subrange(0, d)))
    } else {
        None
    }
}

pub open spec fn header_name(buf: Seq<u8>, p: int) -> Seq<u8> {
    buf.subrange(p, p + 16)
}

pub open spec fn header_size(buf: Seq<u8>, p: int) -> Option<nat> {
    size_field(buf.subrange(p + 48, p + 58))
}

pub open spec fn is_ascii_name(n: Seq<u8>) -> bool {
    forall|i: int| 0 <= i < n.len() ==> n[i] < 0x80
}

/// The header at `p` lies in `buf`, has an ASCII name that does not start
/// with `#1/` (the BSD form), a plain decimal size, and its member's bytes
/// lie in `buf` too.
pub open spec fn header_ok(buf: Seq<u8>, p: int) -> bool {
    &&& 0 <= p
    &&& p + 60 <= buf.len()
    &&& is_ascii_name(header_name(buf, p))
    &&& !(buf[p] == 35 && buf[p + 1] == 49 && buf[p + 2] == 47)
    &&& header_size(buf, p) is Some
    &&& p + 60 + header_size(buf, p)->0 <= buf.len()
}

/// The offsets of the member headers from `pos` on, each member starting at
/// the next even offset after the one before and the walk ending when at most
/// one byte is left; `None` where a header is not `header_ok`.
pub open spec fn member_headers(buf: Seq<u8>, pos: int) -> Option<Seq<int>>
    decreases buf.len() - pos,
{
    if pos < 0 || pos + 1 >= buf.len() {
        Some(Seq::empty())
    } else {
        let p = if pos % 2 == 1 { pos + 1 } else { pos };
        if header_ok(buf, p) {
            match member_headers(buf, p + 60 + header_size(buf, p)->0) {
                Some(rest) => Some(seq![p] + rest),
                None => None,
            }
        } else {
            None
        }
    }
}

/// `/` followed by spaces: the symbol index.
pub open spec fn is_index_name(n: Seq<u8>) -> bool {
    n.len() == 16 && n[0] == 47 && forall|i: int| 1 <= i < 16 ==> n[i] == 32
}

/// `//` followed by spaces: the table of long member names.
pub open spec fn is_name_table(n: Seq<u8>) -> bool {
    n.len() == 16 && n[0] == 47 && n[1] == 47 && forall|i: int| 2 <= i < 16 ==> n[i] == 32
}

/// A member that holds a file (neither the symbol index nor the name table).
pub open spec fn is_file_member(buf: Seq<u8>, p: int) -> bool {
    !is_index_name(header_name(buf, p)) && !is_name_table(header_name(buf, p))
}

/// The number of entries of the symbol index whose header is at `h`.
pub open spec fn index_count(buf: Seq<u8>, h: int) -> u32 {
    be_u32(buf.subrange(h + 60, h + 64))
}

/// The header offset that entry `k` of the symbol index at `h` names.
pub open spec fn index_entry(buf: Seq<u8>, h: int, k: int) -> u32 {
    be_u32(buf.subrange(h + 64 + 4 * k, h + 68 + 4 * k))
}

/// The symbol index at `h` holds its count and that many offsets, and each
/// offset is that of the header of a file member among `hs`.
pub open spec fn index_ok(buf: Seq<u8>, h: int, hs: Seq<int>) -> bool {
    let s = header_size(buf, h)->0;
    &&& s >= 4
    &&& 4 + 4 * index_count(buf, h) <= s
    &&& forall|k: int| 0 <= k < index_count(buf, h) ==> #[trigger] entry_found(buf, h, k, hs)
}

/// Entry `k` of the symbol index at `h` is the offset of a file member's
/// header among `hs`.
pub open spec fn entry_found(buf: Seq<u8>, h: int, k: int, hs: Seq<int>) -> bool {
    exists|j: int| 0 <= j < hs.len() && hs[j] == index_entry(buf, h, k) as int && is_file_member(buf, hs[j])
}

/// The archives that the linker hands to `goblin`: the magic's length and at
/// most 2^32 - 1 bytes, members laid out as `member_headers` says, at most one
/// symbol index and it `index_ok`, and every name table non-empty.
pub open spec fn archive_checked(buf: Seq<u8>) -> bool {
    &&& 8 <= buf.len() <= u32::MAX
    &&& member_headers(buf, 8) matches Some(hs) && {
        &&& forall|i: int, j: int|
            0 <= i < j < hs.len() && is_index_name(header_name(buf, hs[i])) ==> !is_index_name(
                header_name(buf, hs[j]),
            )
        &&& forall|i: int|
            0 <= i < hs.len() && is_name_table(header_name(buf, hs[i])) ==> header_size(buf, hs[i])->0 >= 1
        &&& forall|i: int|
            0 <= i < hs.len() && is_index_name(header_name(buf, hs[i])) ==> index_ok(buf, hs[i], hs)
    }
}

/// The size field of the header at `p`, as `header_size` reads it.
fn read_size(buf: &[u8], p: usize) -> (r: Option<u64>)
    requires
        p + 60 <= buf.len(),
    ensures
        match header_size(buf@, p as int) {
            Some(s) => r is Some && r->0 == s,
            None => r is None,
        },
{
    let ghost f = buf@.subrange(p + 48, p + 58);
    let mut i: usize = 0;
    let mut value: u64 = 0;
    while i < 10 && 48 <= buf[p + 48 + i] && buf[p + 48 + i] <= 57
        invariant
            i <= 10,
            p + 60 <= buf.len(),
            f == buf@.subrange(p + 48, p + 58),
            digits_end(f, 0) == digits_end(f, i as int),
            forall|k: int| 0 <= k < i ==> is_digit(f[k]),
            value == decimal_of(f.subrange(0, i as int)),
            value < pow10(i as nat),
        decreases 10 - i,
    {
        assert(f.subrange(0, i + 1).drop_last() =~= f.subrange(0, i as int));
        assert(f[i as int] == buf[p + 48 + i]);
        proof {
            lemma_pow10_step(i as nat);
        }
        value = value * 10 + (buf[p + 48 + i] - 48) as u64;
        i = i + 1;
    }
    assert(digits_end(f, i as int) == i as int);
    if i == 0 {
        return None;
    }
    let mut k: usize = i;
    while k < 10
        invariant
            i <= k <= 10,
            p + 60 <= buf.len(),
            f == buf@.subrange(p + 48, p + 58),
            digits_end(f, 0) == i,
            forall|m: int| i <= m < k ==> f[m] == 32,
        decreases 10 - k,
    {
        if buf[p + 48 + k] != 32 {
            assert(f[k as int] != 32);
            return None;
        }
        k = k + 1;
    }
    Some(value)
}

pub open spec fn pow10(n: nat) -> nat
    decreases n,
{
    if n == 0 {
        1
    } else {
        10 * pow10((n - 1) as nat)
    }
}

proof fn lemma_pow10_step(i: nat)
    requires
        i < 10,
    ensures
        pow10(i + 1) == 10 * pow10(i),
        pow10(i + 1) <= 10_000_000_000,
    decreases i,
{
    reveal_with_fuel(pow10, 11);
}

/// Whether the header at `p` is `header_ok`, with its size where it is.
fn check_header(buf: &[u8], p: usize) -> (r: Option<usize>)
    ensures
        match r {
            Some(s) => header_ok(buf@, p as int) && header_size(buf@, p as int) == Some(s as nat),
            None => !header_ok(buf@, p as int),
        },
{
    if p > buf.len() || buf.len() - p < HEADER_LEN {
        return None;
    }
    let mut i: usize = 0;
    while i < 16
        invariant
            i <= 16,
            p + 60 <= buf.len(),
            forall|k: int| 0 <= k < i ==> header_name(buf@, p as int)[k] < 0x80,
        decreases 16 - i,
    {
        if buf[p + i] >= 0x80 {
            assert(header_name(buf@, p as int)[i as int] >= 0x80);
            return None;
        }
        i = i + 1;
    }
    assert(is_ascii_name(header_name(buf@, p as int)));
    if buf[p] == 35 && buf[p + 1] == 49 && buf[p + 2] == 47 {
        return None;
    }
    let size = match read_size(buf, p) {
        Some(s) => s,
        None => return None,
    };
    if size > (buf.len() - p - HEADER_LEN) as u64 {
        return None;
    }
    assert(header_size(buf@, p as int) == Some(size as nat));
    assert(p + 60 + size <= buf@.len());
    assert(!(buf@[p as int] == 35 && buf@[p + 1] == 49 && buf@[p + 2] == 47));
    Some(size as usize)
}

/// The header offsets of `buf` from 8 on, as `member_headers` gives them.
fn walk_members(buf: &[u8]) -> (r: Option<Vec<usize>>)
    requires
        8 <= buf@.len(),
    ensures
        match member_headers(buf@, 8) {
            Some(hs) => r matches Some(v) && v@.map_values(|h: usize| h as int) == hs,
            None => r is None,
        },
{
    let mut out: Vec<usize> = Vec::new();
    let mut pos: usize = 8;
    while pos < buf.len() - 1
        invariant
            8 <= pos <= buf.len(),
            member_headers(buf@, 8) == match member_headers(buf@, pos as int) {
                Some(rest) => Some(out@.map_values(|h: usize| h as int) + rest),
                None => None::<Seq<int>>,
            },
        decreases buf@.len() - pos,
    {
        let p = if pos % 2 == 1 { pos + 1 } else { pos };
        match check_header(buf, p) {
            Some(size) => {
                let next = p + HEADER_LEN + size;
                let ghost before = out@.map_values(|h: usize| h as int);
                out.push(p);
                assert(out@.map_values(|h: usize| h as int) =~= before + seq![p as int]);
                proof {
                    match member_headers(buf@, next as int) {
                        Some(rest) => {
                            assert(before + (seq![p as int] + rest) =~= (before + seq![p as int]) + rest);
                        },
                        None => {},
                    }
                }
                pos = next;
            },
            None => {
                return None;
            },
        }
    }
    assert(out@.map_values(|h: usize| h as int) + Seq::<int>::empty() =~= out@.map_values(
        |h: usize| h as int,
    ));
    Some(out)
}

fn name_is_index(buf: &[u8], p: usize) -> (r: bool)
    requires
        p + 60 <= buf.len(),
    ensures
        r == is_index_name(header_name(buf@, p as int)),
{
    if buf[p] != 47 {
        return false;
    }
    let mut i: usize = 1;
    while i < 16
        invariant
            1 <= i <= 16,
            p + 60 <= buf.len(),
            forall|k: int| 1 <= k < i ==> header_name(buf@, p as int)[k] == 32,
        decreases 16 - i,
    {
        if buf[p + i] != 32 {
            assert(header_name(buf@, p as int)[i as int] == buf@[p + i]);
            return false;
        }
        i = i + 1;
    }
    true
}

fn name_is_table(buf: &[u8], p: usize) -> (r: bool)
    requires
        p + 60 <= buf.len(),
    ensures
        r == is_name_table(header_name(buf@, p as int)),
{
    if buf[p] != 47 || buf[p + 1] != 47 {
        return false;
    }
    let mut i: usize = 2;
    while i < 16
        invariant
            2 <= i <= 16,
            p + 60 <= buf.len(),
            forall|k: int| 2 <= k < i ==> header_name(buf@, p as int)[k] == 32,
        decreases 16 - i,
    {
        if buf[p + i] != 32 {
            assert(header_name(buf@, p as int)[i as int] == buf@[p + i]);
            return false;
        }
        i = i + 1;
    }
    true
}

/// Whether some header of `hs` is at `target` and holds a file member.
fn names_file_member(buf: &[u8], hs: &Vec<usize>, target: u32) -> (r: bool)
    requires
        forall|j: int| 0 <= j < hs@.len() ==> header_ok(buf@, #[trigger] hs@[j] as int),
    ensures
        r == exists|j: int|
            0 <= j < hs@.len() && hs@[j] as int == target as int && is_file_member(buf@, hs@[j] as int),
{
    let mut j: usize = 0;
    while j < hs.len()
        invariant
            j <= hs@.len(),
            forall|j: int| 0 <= j < hs@.len() ==> header_ok(buf@, #[trigger] hs@[j] as int),
            forall|m: int|
                0 <= m < j ==> !(hs@[m] as int == target as int && is_file_member(buf@, hs@[m] as int)),
        decreases hs@.len() - j,
    {
        let h = hs[j];
        assert(header_ok(buf@, hs@[j as int] as int));
        if h as u64 == target as u64 && !name_is_index(buf, h) && !name_is_table(buf, h) {
            return true;
        }
        j = j + 1;
    }
    false
}

/// Whether the symbol index at `h` is `index_ok`.
fn check_index(buf: &[u8], h: usize, size: usize, hs: &Vec<usize>) -> (r: bool)
    requires
        header_ok(buf@, h as int),
        header_size(buf@, h as int) == Some(size as nat),
        forall|j: int| 0 <= j < hs@.len() ==> header_ok(buf@, #[trigger] hs@[j] as int),
    ensures
        r == index_ok(buf@, h as int, hs@.map_values(|x: usize| x as int)),
{
    let ghost hsi = hs@.map_values(|x: usize| x as int);
    assert(h + 60 + size <= buf.len());
    if size < 4 {
        return false;
    }
    let head = slice_subrange(buf, h + 60, h + 64);
    let count = read_be_u32(head);
    assert(head@ == buf@.subrange(h + 60, h + 64));
    assert(count == index_count(buf@, h as int));
    if (count as u64) > ((size - 4) / 4) as u64 {
        return false;
    }
    let mut k: usize = 0;
    while (k as u64) < count as u64
        invariant
            header_ok(buf@, h as int),
            header_size(buf@, h as int) == Some(size as nat),
            h + 60 + size <= buf.len(),
            k <= count,
            4 + 4 * count <= size,
            count == index_count(buf@, h as int),
            forall|j: int| 0 <= j < hs@.len() ==> header_ok(buf@, #[trigger] hs@[j] as int),
            hsi == hs@.map_values(|x: usize| x as int),
            forall|m: int| 0 <= m < k ==> #[trigger] entry_found(buf@, h as int, m, hsi),
        decreases count - k,
    {
        let at = h + 64 + 4 * k;
        let entry = slice_subrange(buf, at, at + 4);
        let target = read_be_u32(entry);
        assert(entry@ == buf@.subrange(at as int, at + 4));
        assert(target == index_entry(buf@, h as int, k as int));
        if !names_file_member(buf, hs, target) {
            assert forall|j: int|
                0 <= j < hsi.len() implies !(hsi[j] == index_entry(buf@, h as int, k as int) as int
                && is_file_member(buf@, hsi[j])) by {
                assert(hsi[j] == hs@[j] as int);
            }
            assert(!entry_found(buf@, h as int, k as int, hsi));
            return false;
        }
        proof {
            let j = choose|j: int|
                0 <= j < hs@.len() && hs@[j] as int == target as int && is_file_member(buf@, hs@[j] as int);
            assert(hsi[j] == hs@[j] as int);
            assert(entry_found(buf@, h as int, k as int, hsi));
        }
        k = k + 1;
    }
    assert(k == count);
    true
}

/// Whether `buf` is `archive_checked`.
pub fn check_archive(buf: &[u8]) -> (r: bool)
    ensures
        r == archive_checked(buf@),
{
    if buf.len() < 8 || buf.len() as u64 > u32::MAX as u64 {
        return false;
    }
    let hs = match walk_members(buf) {
        Some(v) => v,
        None => return false,
    };
    let ghost hsi = hs@.map_values(|x: usize| x as int);
    proof {
        lemma_walk_headers_ok(buf@, 8);
    }
    assert forall|j: int| 0 <= j < hs@.len() implies header_ok(buf@, #[trigger] hs@[j] as int) by {
        assert(hsi[j] == hs@[j] as int);
    }
    let mut seen_index = false;
    let mut i: usize = 0;
    while i < hs.len()
        invariant
            i <= hs@.len(),
            hsi == hs@.map_values(|x: usize| x as int),
            member_headers(buf@, 8) == Some(hsi),
            forall|j: int| 0 <= j < hs@.len() ==> header_ok(buf@, #[trigger] hs@[j] as int),
            seen_index == exists|m: int| 0 <= m < i && is_index_name(header_name(buf@, hsi[m])),
            forall|a: int, b: int|
                0 <= a < b < i && is_index_name(header_name(buf@, hsi[a])) ==> !is_index_name(
                    header_name(buf@, hsi[b]),
                ),
            forall|a: int|
                0 <= a < i && is_name_table(header_name(buf@, hsi[a])) ==> header_size(buf@, hsi[a])->0 >= 1,
            forall|a: int|
                0 <= a < i && is_index_name(header_name(buf@, hsi[a])) ==> index_ok(buf@, hsi[a], hsi),
        decreases hs@.len() - i,
    {
        let h = hs[i];
        assert(hsi[i as int] == h as int);
        assert(header_ok(buf@, h as int));
        let size = match check_header(buf, h) {
            Some(s) => s,
            None => return false,
        };
        if name_is_index(buf, h) {
            if seen_index {
                proof {
                    let m = choose|m: int| 0 <= m < i && is_index_name(header_name(buf@, hsi[m]));
                    assert(is_index_name(header_name(buf@, hsi[m])));
                }
                return false;
            }
            if !check_index(buf, h, size, &hs) {
                return false;
            }
            seen_index = true;
        } else if name_is_table(buf, h) {
            if size < 1 {
                return false;
            }
        }
        i = i + 1;
    }
    true
}

/// Every offset that `member_headers` gives from `pos` holds a `header_ok`
/// header.
proof fn lemma_walk_headers_ok(buf: Seq<u8>, pos: int)
    ensures
        member_headers(buf, pos) matches Some(hs) ==> forall|j: int|
            0 <= j < hs.len() ==> header_ok(buf, #[trigger] hs[j]),
    decreases buf.len() - pos,
{
    if !(pos < 0 || pos + 1 >= buf.len()) {
        let p = if pos % 2 == 1 { pos + 1 } else { pos };
        if header_ok(buf, p) {
            let next = p + 60 + header_size(buf, p)->0;
            lemma_walk_headers_ok(buf, next);
            if let Some(rest) = member_headers(buf, next) {
                let hs = seq![p] + rest;
                assert forall|j: int| 0 <= j < hs.len() implies header_ok(buf, #[trigger] hs[j]) by {
                    if j > 0 {
                        assert(hs[j] == rest[j - 1]);
                    }
                }
            }
        }
    }
}

} // verus!
