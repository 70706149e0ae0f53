//! The bytes of the placed sections, with their PowerPC relocations applied,
//! and the text and data that they make up.
use super::archive::{
    find_member, find_member_of_symbol, member_named, member_of_symbol, opt_object, ElfReloc, ElfSymbol,
    Library, LibraryModel, SymbolModel,
};
use super::closure::{object_at, reloc_table, section_key_ok};
use super::layout::Placement;
use super::order::{key_kind, SectionKind};
use crate::compiler::big_endian::{be_bytes, be_u32, read_be_u32, write_be_u32};
use crate::text::str_eq;
use vstd::prelude::*;
use vstd::slice::{slice_subrange, slice_to_vec};

verus! {

/// `a + b`, wrapping around at 2^32.
pub open spec fn wrap_add(a: u32, b: u32) -> u32 {
    if a + b <= u32::MAX {
        (a + b) as u32
    } else {
        (a + b - 0x1_0000_0000) as u32
    }
}

/// `a - b`, wrapping around at 2^32.
pub open spec fn wrap_sub(a: u32, b: u32) -> u32 {
    if a >= b {
        (a - b) as u32
    } else {
        (a - b + 0x1_0000_0000) as u32
    }
}

/// The first index from `i` on where `order` holds `key`.
pub open spec fn position_from(order: Seq<(usize, usize)>, key: (usize, usize), i: int) -> Option<int>
    decreases order.len() - i,
{
    if i < 0 || i >= order.len() {
        None
    } else if order[i] == key {
        Some(i)
    } else {
        position_from(order, key, i + 1)
    }
}

/// The address where the section `key` was placed, if it was.
pub open spec fn located_address(order: Seq<(usize, usize)>, placements: Seq<Placement>, key: (usize, usize)) -> Option<u32> {
    match position_from(order, key, 0) {
        Some(j) => Some(placements[j].address),
        None => None,
    }
}

/// The first index from `i` on of a symbol named `name`.
pub open spec fn first_named_from(syms: Seq<SymbolModel>, name: Seq<char>, i: int) -> Option<int>
    decreases syms.len() - i,
{
    if i < 0 || i >= syms.len() {
        None
    } else if syms[i].name == Some(name) {
        Some(i)
    } else {
        first_named_from(syms, name, i + 1)
    }
}

/// The address of the section that symbol `sym` of member `mi` lies in: its
/// own section where that was placed; else the section of the first symbol
/// of the same name in the member that the archive's index gives for it.
pub open spec fn target_section_address(
    lib: LibraryModel,
    order: Seq<(usize, usize)>,
    placements: Seq<Placement>,
    mi: usize,
    sym: SymbolModel,
) -> Option<u32> {
    match located_address(order, placements, (mi, sym.section)) {
        Some(a) => Some(a),
        None => match member_of_symbol(lib.members, sym.name.unwrap()) {
            None => None,
            Some(m2) => match member_named(lib.members, m2) {
                None => None,
                Some(mi2) => if mi2 < lib.objects.len() && lib.objects[mi2] is Some {
                    let o2 = lib.objects[mi2].unwrap();
                    match first_named_from(o2.symbols, sym.name.unwrap(), 0) {
                        None => None,
                        Some(j) => located_address(order, placements, (mi2 as usize, o2.symbols[j].section)),
                    }
                } else {
                    None
                },
            },
        },
    }
}

/// The addend of a relocation (0 where it has none), as a `u32`.
pub open spec fn addend_of(r: ElfReloc) -> u32 {
    (match r.addend {
        Some(a) => a,
        None => 0i64,
    }) as u32
}

/// The four bytes at `offset` replaced by those of `value`.
pub open spec fn put_word(buf: Seq<u8>, offset: int, value: u32) -> Seq<u8> {
    buf.subrange(0, offset) + be_bytes(value) + buf.subrange(offset + 4, buf.len() as int)
}

/// `buf` after the relocation `r` of a section of member `mi` placed at
/// `p_base`: `R_PPC_ADDR32` (1) writes S + A, `R_PPC_REL32` (26) writes
/// S + A - P, `R_PPC_REL24` (10) and `R_PPC_PLTREL24` (18) or S + A - P,
/// masked to the branch displacement bits, into the word; `None` for any
/// other type, a word outside the section, a symbol index out of range or a
/// symbol whose section was not placed.
pub open spec fn apply_reloc(
    lib: LibraryModel,
    order: Seq<(usize, usize)>,
    placements: Seq<Placement>,
    mi: usize,
    p_base: u32,
    buf: Seq<u8>,
    r: ElfReloc,
) -> Option<Seq<u8>> {
    let o = object_at(lib, mi);
    if r.offset + 4 > buf.len() || r.symbol >= o.symbols.len() {
        None
    } else {
        let sym = o.symbols[r.symbol as int];
        match target_section_address(lib, order, placements, mi, sym) {
            None => None,
            Some(section_address) => {
                let s = wrap_add(section_address, sym.value as u32);
                let a = addend_of(r);
                let p = wrap_add(p_base, r.offset as u32);
                let offset = r.offset as int;
                if r.kind == 1 {
                    Some(put_word(buf, offset, wrap_add(s, a)))
                } else if r.kind == 26 {
                    Some(put_word(buf, offset, wrap_sub(wrap_add(s, a), p)))
                } else if r.kind == 10 || r.kind == 18 {
                    let word = be_u32(buf.subrange(offset, offset + 4));
                    Some(put_word(buf, offset, word | (wrap_sub(wrap_add(s, a), p) & 0x3FFFFFCu32)))
                } else {
                    None
                }
            },
        }
    }
}

/// `buf` after the relocations `rs`, in order.
pub open spec fn apply_relocs(
    lib: LibraryModel,
    order: Seq<(usize, usize)>,
    placements: Seq<Placement>,
    mi: usize,
    p_base: u32,
    buf: Seq<u8>,
    rs: Seq<ElfReloc>,
) -> Option<Seq<u8>>
    decreases rs.len(),
{
    if rs.len() == 0 {
        Some(buf)
    } else {
        match apply_relocs(lib, order, placements, mi, p_base, buf, rs.drop_last()) {
            None => None,
            Some(b) => apply_reloc(lib, order, placements, mi, p_base, b, rs.last()),
        }
    }
}

/// The bytes of the `j`-th placed section, relocated: none for a
/// zero-filled one; `None` where its bytes lie outside its object.
pub open spec fn section_contents(
    lib: LibraryModel,
    order: Seq<(usize, usize)>,
    placements: Seq<Placement>,
    j: int,
) -> Option<Seq<u8>> {
    let key = order[j];
    let o = object_at(lib, key.0);
    let sec = o.sections[key.1 as int];
    let raw = if key_kind(lib, key) != SectionKind::BlockStartedBySymbol {
        if sec.offset <= o.bytes.len() && sec.size <= o.bytes.len() - sec.offset {
            Some(o.bytes.subrange(sec.offset as int, sec.offset + sec.size))
        } else {
            None
        }
    } else {
        Some(Seq::empty())
    };
    match raw {
        None => None,
        Some(b) => match reloc_table(o, key.1 as int) {
            None => None,
            Some(None) => Some(b),
            Some(Some(rs)) => apply_relocs(lib, order, placements, key.0, placements[j].address, b, rs),
        },
    }
}

pub open spec fn zeros(n: nat) -> Seq<u8> {
    Seq::new(n, |i: int| 0u8)
}

/// The text and the data that the first `n` placed sections make up: each
/// text section after its padding in the text, each other one after its
/// padding in the data, a zero-filled one as `sh_size` zero bytes.
pub open spec fn emit(
    lib: LibraryModel,
    order: Seq<(usize, usize)>,
    placements: Seq<Placement>,
    n: int,
) -> Option<(Seq<u8>, Seq<u8>)>
    decreases n,
{
    if n <= 0 {
        Some((Seq::empty(), Seq::empty()))
    } else {
        match emit(lib, order, placements, n - 1) {
            None => None,
            Some((text, data)) => match section_contents(lib, order, placements, n - 1) {
                None => None,
                Some(c) => {
                    let key = order[n - 1];
                    let pad = zeros(placements[n - 1].padding as nat);
                    match key_kind(lib, key) {
                        SectionKind::TextSection => Some((text + pad + c, data)),
                        SectionKind::DataSection => Some((text, data + pad + c)),
                        SectionKind::BlockStartedBySymbol => Some(
                            (text, data + pad + zeros(object_at(lib, key.0).sections[key.1 as int].size as nat)),
                        ),
                    }
                },
            },
        }
    }
}

proof fn lemma_relocs_fail(
    lib: LibraryModel,
    order: Seq<(usize, usize)>,
    placements: Seq<Placement>,
    mi: usize,
    p_base: u32,
    buf: Seq<u8>,
    rs: Seq<ElfReloc>,
    from: int,
    n: int,
)
    requires
        0 <= from <= n <= rs.len(),
        apply_relocs(lib, order, placements, mi, p_base, buf, rs.subrange(0, from)) is None,
    ensures
        apply_relocs(lib, order, placements, mi, p_base, buf, rs.subrange(0, n)) is None,
    decreases n - from,
{
    if n > from {
        lemma_relocs_fail(lib, order, placements, mi, p_base, buf, rs, from, n - 1);
        assert(rs.subrange(0, n).drop_last() =~= rs.subrange(0, n - 1));
    }
}

/// Where the section `key` was placed, if it was.
fn locate(order: &Vec<(usize, usize)>, placements: &Vec<Placement>, key: (usize, usize)) -> (r: Option<u32>)
    requires
        placements@.len() == order@.len(),
    ensures
        r == located_address(order@, placements@, key),
{
    let mut i: usize = 0;
    while i < order.len()
        invariant
            placements@.len() == order@.len(),
            i <= order@.len(),
            position_from(order@, key, 0) == position_from(order@, key, i as int),
        decreases order@.len() - i,
    {
        if order[i].0 == key.0 && order[i].1 == key.1 {
            assert(order@[i as int] == key);
            return Some(placements[i].address);
        }
        i = i + 1;
    }
    None
}

/// The index of the first symbol of `syms` named `name`.
fn first_named(syms: &Vec<ElfSymbol>, name: &str) -> (r: Option<usize>)
    ensures
        match r {
            Some(j) => first_named_from(super::archive::symbols_model(syms@), name@, 0) == Some(j as int) && j
                < syms@.len(),
            None => first_named_from(super::archive::symbols_model(syms@), name@, 0) is None,
        },
{
    let ghost m = super::archive::symbols_model(syms@);
    let mut i: usize = 0;
    while i < syms.len()
        invariant
            m == super::archive::symbols_model(syms@),
            i <= syms@.len(),
            first_named_from(m, name@, 0) == first_named_from(m, name@, i as int),
        decreases syms@.len() - i,
    {
        assert(m[i as int] == syms@[i as int].model());
        let found = match &syms[i].name {
            Some(s) => str_eq(s.as_str(), name),
            None => false,
        };
        if found {
            return Some(i);
        }
        i = i + 1;
    }
    None
}

/// The address of the section of symbol `sym` of member `mi` (see
/// `target_section_address`).
fn target_address(
    lib: &Library,
    order: &Vec<(usize, usize)>,
    placements: &Vec<Placement>,
    mi: usize,
    sym: &ElfSymbol,
) -> (r: Option<u32>)
    requires
        placements@.len() == order@.len(),
        sym.name is Some,
    ensures
        r == target_section_address(lib.model(), order@, placements@, mi, sym.model()),
{
    let ghost lm = lib.model();
    match locate(order, placements, (mi, sym.section)) {
        Some(a) => {
            return Some(a);
        },
        None => {},
    }
    let name = sym.name.as_ref().unwrap().as_str();
    let k = match find_member_of_symbol(&lib.members, name) {
        Some(k) => k,
        None => {
            return None;
        },
    };
    assert(lm.members[k as int] == lib.members@[k as int].model());
    let mi2 = match find_member(&lib.members, lib.members[k].name.as_str()) {
        Some(mi2) => mi2,
        None => {
            return None;
        },
    };
    if mi2 >= lib.objects.len() {
        return None;
    }
    assert(lm.objects[mi2 as int] == opt_object(lib.objects@[mi2 as int]));
    let o2 = match &lib.objects[mi2] {
        Some(o) => o,
        None => {
            return None;
        },
    };
    match first_named(&o2.symbols, name) {
        Some(j) => {
            assert(o2.model().symbols[j as int] == o2.symbols@[j as int].model());
            locate(order, placements, (mi2, o2.symbols[j].section))
        },
        None => None,
    }
}

/// The bytes of the `j`-th placed section, relocated (see
/// `section_contents`).
pub fn relocated_section(
    lib: &Library,
    order: &Vec<(usize, usize)>,
    placements: &Vec<Placement>,
    j: usize,
) -> (r: Option<Vec<u8>>)
    requires
        placements@.len() == order@.len(),
        j < order@.len(),
        forall|k: int| 0 <= k < order@.len() ==> section_key_ok(lib.model(), #[trigger] order@[k]),
    ensures
        match section_contents(lib.model(), order@, placements@, j as int) {
            Some(c) => r matches Some(v) && v@ == c,
            None => r is None,
        },
{
    let ghost lm = lib.model();
    let key = order[j];
    assert(section_key_ok(lm, key));
    assert(lm.objects[key.0 as int] == opt_object(lib.objects@[key.0 as int]));
    let obj = lib.objects[key.0].as_ref().unwrap();
    let ghost o = obj.model();
    let sec = &obj.sections[key.1];
    assert(o.sections[key.1 as int] == sec.model());
    let kind = super::order::kind_of_key(lib, key);
    let mut buf: Vec<u8> = if kind != SectionKind::BlockStartedBySymbol {
        let len = obj.bytes.len();
        if sec.offset > len as u64 || sec.size > (len as u64) - sec.offset {
            return None;
        }
        let start = sec.offset as usize;
        let end = start + sec.size as usize;
        let slice = slice_subrange(obj.bytes.as_slice(), start, end);
        slice_to_vec(slice)
    } else {
        Vec::new()
    };
    let table = match super::closure::find_reloc_table(obj, key.1) {
        None => {
            return None;
        },
        Some(None) => {
            return Some(buf);
        },
        Some(Some(t)) => t,
    };
    let relocs = &obj.relocations[table].relocs;
    let ghost rs = relocs@;
    let ghost start_buf = buf@;
    let p_base = placements[j].address;
    assert(o.symbols.len() == obj.symbols@.len());
    assert(section_contents(lm, order@, placements@, j as int) == apply_relocs(
        lm,
        order@,
        placements@,
        key.0,
        p_base,
        start_buf,
        rs,
    ));
    let mut i: usize = 0;
    while i < relocs.len()
        invariant
            lm == lib.model(),
            placements@.len() == order@.len(),
            key == order@[j as int],
            section_key_ok(lm, key),
            o == obj.model(),
            o == object_at(lm, key.0),
            o.symbols.len() == obj.symbols@.len(),
            p_base == placements@[j as int].address,
            rs == relocs@,
            section_contents(lm, order@, placements@, j as int) == apply_relocs(
                lm,
                order@,
                placements@,
                key.0,
                p_base,
                start_buf,
                rs,
            ),
            i <= rs.len(),
            apply_relocs(lm, order@, placements@, key.0, p_base, start_buf, rs.subrange(0, i as int)) == Some(buf@),
        decreases rs.len() - i,
    {
        let ghost prefix = rs.subrange(0, i + 1);
        assert(prefix.drop_last() =~= rs.subrange(0, i as int));
        let r = relocs[i];
        assert(prefix.last() == r);
        let len = buf.len();
        if len < 4 || r.offset > (len - 4) as u64 || r.symbol >= obj.symbols.len() {
            proof {
                lemma_relocs_fail(lm, order@, placements@, key.0, p_base, start_buf, rs, i + 1, rs.len() as int);
                assert(rs.subrange(0, rs.len() as int) =~= rs);
            }
            return None;
        }
        let sym = &obj.symbols[r.symbol];
        assert(o.symbols[r.symbol as int] == sym.model());
        assert(sym.name is Some) by {
            assert(super::archive::all_named(o.symbols));
            assert(o.symbols[r.symbol as int].name is Some);
        }
        let section_address = match target_address(lib, order, placements, key.0, sym) {
            Some(a) => a,
            None => {
                proof {
                    lemma_relocs_fail(lm, order@, placements@, key.0, p_base, start_buf, rs, i + 1, rs.len() as int);
                    assert(rs.subrange(0, rs.len() as int) =~= rs);
                }
                return None;
            },
        };
        let s = section_address.wrapping_add(sym.value as u32);
        let addend: i64 = match r.addend {
            Some(a) => a,
            None => 0,
        };
        let a = addend as u32;
        let p = p_base.wrapping_add(r.offset as u32);
        let offset = r.offset as usize;
        if r.kind == 1 {
            write_be_u32(&mut buf, offset, s.wrapping_add(a));
        } else if r.kind == 26 {
            write_be_u32(&mut buf, offset, s.wrapping_add(a).wrapping_sub(p));
        } else if r.kind == 10 || r.kind == 18 {
            let word = read_be_u32(slice_subrange(buf.as_slice(), offset, offset + 4));
            write_be_u32(&mut buf, offset, word | (s.wrapping_add(a).wrapping_sub(p) & 0x3FFFFFCu32));
        } else {
            proof {
                lemma_relocs_fail(lm, order@, placements@, key.0, p_base, start_buf, rs, i + 1, rs.len() as int);
                assert(rs.subrange(0, rs.len() as int) =~= rs);
            }
            return None;
        }
        i = i + 1;
    }
    assert(rs.subrange(0, rs.len() as int) =~= rs);
    Some(buf)
}

} // verus!
