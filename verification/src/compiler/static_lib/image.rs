//! The memory image that a link produces: the text followed by the data is
//! the memory from the base address to the end of the last section, each
//! section at its address with its (relocated) bytes, zero-filled sections
//! as zeros, and zeros in the padding between sections.
use super::archive::{ElfReloc, LibraryModel};
use super::closure::object_at;
use super::layout::{layout, LayoutModel, Placement};
use super::order::{key_kind, SectionKind};
use super::relocate::{apply_relocs, emit, section_contents, zeros};
use super::{describe, describe_all, layout_order, link_result};
use vstd::prelude::*;

verus! {

/// The `sh_size` of the section of `key`.
pub open spec fn key_section_size(lib: LibraryModel, key: (usize, usize)) -> nat {
    object_at(lib, key.0).sections[key.1 as int].size as nat
}

/// The text sections come first in `order`.
pub open spec fn text_first(lib: LibraryModel, order: Seq<(usize, usize)>) -> bool {
    forall|i: int, j: int|
        0 <= i < j < order.len() && key_kind(lib, order[j]) == SectionKind::TextSection ==> key_kind(
            lib,
            order[i],
        ) == SectionKind::TextSection
}

/// Every section of `order` has a size that fits in 32 bits.
pub open spec fn sizes_fit(lib: LibraryModel, order: Seq<(usize, usize)>) -> bool {
    forall|j: int| 0 <= j < order.len() ==> #[trigger] key_section_size(lib, order[j]) <= u32::MAX
}

/// What the `j`-th placed section holds in memory: zeros for a zero-filled
/// section, else its relocated bytes.
pub open spec fn placed_bytes(
    lib: LibraryModel,
    order: Seq<(usize, usize)>,
    placements: Seq<Placement>,
    j: int,
) -> Option<Seq<u8>> {
    if key_kind(lib, order[j]) == SectionKind::BlockStartedBySymbol {
        Some(zeros(key_section_size(lib, order[j])))
    } else {
        section_contents(lib, order, placements, j)
    }
}

proof fn lemma_reloc_keeps_len(
    lib: LibraryModel,
    order: Seq<(usize, usize)>,
    placements: Seq<Placement>,
    mi: usize,
    p_base: u32,
    buf: Seq<u8>,
    rs: Seq<ElfReloc>,
)
    ensures
        apply_relocs(lib, order, placements, mi, p_base, buf, rs) matches Some(out) ==> out.len() == buf.len(),
    decreases rs.len(),
{
    if rs.len() > 0 {
        lemma_reloc_keeps_len(lib, order, placements, mi, p_base, buf, rs.drop_last());
    }
}

/// A section that is not zero-filled holds `sh_size` bytes.
proof fn lemma_contents_len(lib: LibraryModel, order: Seq<(usize, usize)>, placements: Seq<Placement>, j: int)
    requires
        key_kind(lib, order[j]) != SectionKind::BlockStartedBySymbol,
    ensures
        section_contents(lib, order, placements, j) matches Some(c) ==> c.len() == key_section_size(
            lib,
            order[j],
        ),
{
    let key = order[j];
    let o = object_at(lib, key.0);
    let sec = o.sections[key.1 as int];
    if sec.offset <= o.bytes.len() && sec.size <= o.bytes.len() - sec.offset {
        let b = o.bytes.subrange(sec.offset as int, sec.offset + sec.size);
        match super::closure::reloc_table(o, key.1 as int) {
            Some(Some(rs)) => {
                lemma_reloc_keeps_len(lib, order, placements, key.0, placements[j].address, b, rs);
            },
            _ => {},
        }
    }
}

/// The layout of the first `n` sections extends to that of all of them.
proof fn lemma_layout_prefix(lib: LibraryModel, base: u32, order: Seq<(usize, usize)>, n: int)
    requires
        layout(lib, base, order) is Some,
        0 <= n <= order.len(),
    ensures
        layout(lib, base, order.subrange(0, n)) matches Some(st) && st.placements
            == layout(lib, base, order).unwrap().placements.subrange(0, n),
    decreases order.len(),
{
    let full = layout(lib, base, order).unwrap();
    super::layout::lemma_layout_len(lib, base, order);
    if n == order.len() {
        assert(order.subrange(0, n) =~= order);
        assert(full.placements.subrange(0, n) =~= full.placements);
    } else {
        let prev = order.drop_last();
        let st0 = layout(lib, base, prev).unwrap();
        lemma_layout_prefix(lib, base, prev, n);
        assert(prev.subrange(0, n) =~= order.subrange(0, n));
        assert(full.placements == st0.placements.push(full.placements.last()));
        assert(st0.placements.subrange(0, n) =~= full.placements.subrange(0, n));
    }
}

/// What the text and data of the first `n` sections are, as a memory image
/// from `base` laid out by `st`.
pub open spec fn image_of(
    lib: LibraryModel,
    order: Seq<(usize, usize)>,
    placements: Seq<Placement>,
    base: u32,
    st: LayoutModel,
    img: Seq<u8>,
    n: int,
) -> bool {
    &&& img.len() == st.next - base
    &&& forall|j: int|
        0 <= j < n ==> {
            let a = (#[trigger] placements[j]).address - base;
            let size = key_section_size(lib, order[j]);
            &&& placements[j].padding <= a
            &&& a + size <= img.len()
            &&& placed_bytes(lib, order, placements, j) matches Some(c) && img.subrange(a, a + size) == c
            &&& img.subrange(a - placements[j].padding, a) == zeros(placements[j].padding as nat)
        }
}

/// What placing one section does to a layout.
proof fn lemma_place(lib: LibraryModel, st0: LayoutModel, key: (usize, usize))
    requires
        super::layout::place(lib, st0, key) is Some,
    ensures
        ({
            let st = super::layout::place(lib, st0, key).unwrap();
            let p = st.placements.last();
            &&& st.placements == st0.placements.push(p)
            &&& p.address == st0.next + p.padding
            &&& p.len == key_section_size(lib, key) as u32
            &&& st.next == p.address + p.len
        }),
{
}

/// Bytes added after an image leave what lies inside it as it was.
proof fn lemma_extend(img0: Seq<u8>, extra: Seq<u8>, s: int, e: int)
    requires
        0 <= s <= e <= img0.len(),
    ensures
        (img0 + extra).subrange(s, e) == img0.subrange(s, e),
{
    assert((img0 + extra).subrange(s, e) =~= img0.subrange(s, e));
}

proof fn lemma_image_step(
    lib: LibraryModel,
    base: u32,
    order: Seq<(usize, usize)>,
    n: int,
)
    requires
        layout(lib, base, order) is Some,
        text_first(lib, order),
        sizes_fit(lib, order),
        0 <= n <= order.len(),
        emit(lib, order, layout(lib, base, order).unwrap().placements, n) is Some,
    ensures
        ({
            let pl = layout(lib, base, order).unwrap().placements;
            let st = layout(lib, base, order.subrange(0, n)).unwrap();
            let (text, data) = emit(lib, order, pl, n).unwrap();
            &&& image_of(lib, order, pl, base, st, text + data, n)
            &&& (forall|i: int| 0 <= i < n ==> key_kind(lib, order[i]) == SectionKind::TextSection) ==> data.len()
                == 0
        }),
    decreases n,
{
    let full = layout(lib, base, order).unwrap();
    let pl = full.placements;
    super::layout::lemma_layout_len(lib, base, order);
    lemma_layout_prefix(lib, base, order, n);
    let st = layout(lib, base, order.subrange(0, n)).unwrap();
    if n == 0 {
        assert(order.subrange(0, 0) =~= Seq::<(usize, usize)>::empty());
        let (text, data) = emit(lib, order, pl, n).unwrap();
        assert(text + data =~= Seq::<u8>::empty());
    } else {
        lemma_image_step(lib, base, order, n - 1);
        lemma_layout_prefix(lib, base, order, n - 1);
        let st0 = layout(lib, base, order.subrange(0, n - 1)).unwrap();
        assert(order.subrange(0, n).drop_last() =~= order.subrange(0, n - 1));
        assert(order.subrange(0, n).last() == order[n - 1]);
        let key = order[n - 1];
        let (t0, d0) = emit(lib, order, pl, n - 1).unwrap();
        let (text, data) = emit(lib, order, pl, n).unwrap();
        let c = section_contents(lib, order, pl, n - 1).unwrap();
        let p = pl[n - 1];
        assert(layout(lib, base, order.subrange(0, n)) == super::layout::place(lib, st0, key));
        lemma_place(lib, st0, key);
        assert(st.placements.last() == p) by {
            assert(st.placements =~= pl.subrange(0, n));
        }
        let pad = zeros(p.padding as nat);
        let size = key_section_size(lib, key);
        let body = if key_kind(lib, key) == SectionKind::BlockStartedBySymbol {
            zeros(size)
        } else {
            c
        };
        if key_kind(lib, key) != SectionKind::BlockStartedBySymbol {
            lemma_contents_len(lib, order, pl, n - 1);
        }
        assert(body.len() == size);
        assert(p.len == size);
        let img0 = t0 + d0;
        if key_kind(lib, key) == SectionKind::TextSection {
            assert forall|i: int| 0 <= i < n - 1 implies key_kind(lib, order[i]) == SectionKind::TextSection by {}
            assert(d0.len() == 0);
            assert(text + data =~= img0 + pad + body);
        } else {
            assert(text + data =~= img0 + pad + body);
        }
        let img = text + data;
        let a = p.address - base;
        assert(img.subrange(a, a + size) =~= body);
        assert(img.subrange(a - p.padding, a) =~= pad);
        assert forall|j: int| 0 <= j < n implies {
            let a = (#[trigger] pl[j]).address - base;
            let size = key_section_size(lib, order[j]);
            &&& pl[j].padding <= a
            &&& a + size <= img.len()
            &&& placed_bytes(lib, order, pl, j) matches Some(c) && img.subrange(a, a + size) == c
            &&& img.subrange(a - pl[j].padding, a) == zeros(pl[j].padding as nat)
        } by {
            if j < n - 1 {
                let aj = pl[j].address - base;
                let sj = key_section_size(lib, order[j]);
                lemma_extend(img0, pad + body, aj, aj + sj);
                lemma_extend(img0, pad + body, aj - pl[j].padding, aj);
                assert(img =~= img0 + (pad + body));
            }
        }
    }
}

proof fn lemma_sorted_text_first(lib: LibraryModel, order: Seq<(usize, usize)>)
    requires
        super::order::sorted_keys(lib, order),
    ensures
        text_first(lib, order),
{
    assert forall|i: int, j: int|
        0 <= i < j < order.len() && key_kind(lib, order[j]) == SectionKind::TextSection implies key_kind(
            lib,
            order[i],
        ) == SectionKind::TextSection by {
        assert(super::order::key_less(lib, order[i], order[j]));
    }
}

proof fn lemma_describe_all(
    lib: LibraryModel,
    order: Seq<(usize, usize)>,
    placements: Seq<Placement>,
    n: int,
)
    requires
        n >= 0,
        describe_all(lib, order, placements, n) is Some,
    ensures
        ({
            let s = describe_all(lib, order, placements, n).unwrap();
            &&& s.len() == n
            &&& forall|j: int|
                0 <= j < n ==> describe(lib, order, placements, j) == Some(#[trigger] s[j])
        }),
    decreases n,
{
    if n > 0 {
        lemma_describe_all(lib, order, placements, n - 1);
    }
}

/// The text and data of a link, one after the other, are the memory from
/// the base address to the end of the last section: each section lies at
/// its address with its bytes (relocated, or zeros for a zero-filled
/// section, `sh_size` of them), and the padding before it is zeros. So the
/// data holds the padding and the bytes of every data and zero-filled
/// section, and nothing else.
pub proof fn lemma_link_image(
    lib: LibraryModel,
    base: u32,
    entries: Seq<Seq<char>>,
    order: Seq<(usize, usize)>,
)
    requires
        layout_order(lib, entries, order),
        sizes_fit(lib, order),
        link_result(lib, base, order) is Some,
    ensures
        ({
            let m = link_result(lib, base, order).unwrap();
            let pl = layout(lib, base, order).unwrap().placements;
            let img = m.text + m.data;
            &&& m.sections.len() == order.len()
            &&& img.len() == (if order.len() == 0 {
                0
            } else {
                m.sections.last().address + m.sections.last().len - base
            })
            &&& forall|j: int|
                0 <= j < order.len() ==> {
                    let a = (#[trigger] m.sections[j]).address - base;
                    &&& m.sections[j].len == key_section_size(lib, order[j])
                    &&& placed_bytes(lib, order, pl, j) matches Some(c) && img.subrange(
                        a,
                        a + m.sections[j].len,
                    ) == c
                    &&& img.subrange(a - pl[j].padding, a) == zeros(pl[j].padding as nat)
                }
        }),
{
    let st = layout(lib, base, order).unwrap();
    let pl = st.placements;
    let m = link_result(lib, base, order).unwrap();
    super::layout::lemma_layout_len(lib, base, order);
    lemma_sorted_text_first(lib, order);
    let n = order.len() as int;
    lemma_image_step(lib, base, order, n);
    assert(order.subrange(0, n) =~= order);
    lemma_describe_all(lib, order, pl, n);
    super::layout::lemma_layout_placements(lib, base, order);
    if n > 0 {
        let prev = order.drop_last();
        let st0 = layout(lib, base, prev).unwrap();
        lemma_place(lib, st0, order.last());
        assert(m.sections.last() == m.sections[n - 1]);
        assert(describe(lib, order, pl, n - 1) == Some(m.sections[n - 1]));
    }
    assert forall|j: int| 0 <= j < order.len() implies {
        let a = (#[trigger] m.sections[j]).address - base;
        &&& m.sections[j].len == key_section_size(lib, order[j])
        &&& placed_bytes(lib, order, pl, j) matches Some(c) && (m.text + m.data).subrange(
            a,
            a + m.sections[j].len,
        ) == c
        &&& (m.text + m.data).subrange(a - pl[j].padding, a) == zeros(pl[j].padding as nat)
    } by {
        assert(describe(lib, order, pl, j) == Some(m.sections[j]));
        assert(pl[j].len == key_section_size(lib, order[j]) as u32);
        assert(key_section_size(lib, order[j]) <= u32::MAX);
    }
}

} // verus!
