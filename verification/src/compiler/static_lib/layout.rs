//! Where the sections go: each, in layout order, at the next address that
//! its alignment allows, with the global and weak functions it holds entered
//! in the symbol table.
use super::archive::{Library, LibraryModel, SymbolModel};
use super::closure::{is_function, is_global, object_at, section_key_ok};
use super::order::{key_kind, SectionKind};
use crate::compiler::symbols::SymbolTable;
use vstd::prelude::*;

verus! {

/// Where a section was placed: its address, the padding before it and its
/// length.
#[derive(Clone, Copy)]
pub struct Placement {
    pub address: u32,
    pub padding: u32,
    pub len: u32,
}

/// The layout so far: the next free address, the address of the first
/// section that is not text, the symbol table and the placements.
pub struct LayoutModel {
    pub next: u32,
    pub data_address: Option<u32>,
    pub symbols: Map<Seq<char>, u32>,
    pub placements: Seq<Placement>,
}

/// The symbol table after the global and weak functions among `syms` that
/// lie in section `section` are entered, in order, at `address` plus their
/// value; `None` where an address passes `u32::MAX`.
pub open spec fn add_function_symbols(
    syms: Seq<SymbolModel>,
    section: int,
    address: u32,
    table: Map<Seq<char>, u32>,
) -> Option<Map<Seq<char>, u32>>
    decreases syms.len(),
{
    if syms.len() == 0 {
        Some(table)
    } else {
        match add_function_symbols(syms.drop_last(), section, address, table) {
            None => None,
            Some(t) => {
                let s = syms.last();
                if s.section == section && is_function(s) && is_global(s) {
                    if address + (s.value as u32) <= u32::MAX {
                        Some(t.insert(s.name.unwrap(), (address + (s.value as u32)) as u32))
                    } else {
                        None
                    }
                } else {
                    Some(t)
                }
            },
        }
    }
}

/// The layout after placing the section of `key`: aligned to its
/// `sh_addralign` (taken as a `u32`), which must not be 0, and taking
/// `sh_size` (as a `u32`) bytes; `None` where an address passes `u32::MAX`.
pub open spec fn place(lib: LibraryModel, st: LayoutModel, key: (usize, usize)) -> Option<LayoutModel> {
    let o = object_at(lib, key.0);
    let sec = o.sections[key.1 as int];
    let align = sec.align as u32;
    if align == 0 {
        None
    } else {
        let rem = st.next % align;
        let padding: u32 = if rem != 0 {
            (align - rem) as u32
        } else {
            0
        };
        if st.next + padding > u32::MAX {
            None
        } else {
            let address = (st.next + padding) as u32;
            let data_address = if st.data_address is None && key_kind(lib, key) != SectionKind::TextSection {
                Some(address)
            } else {
                st.data_address
            };
            match add_function_symbols(o.symbols, key.1 as int, address, st.symbols) {
                None => None,
                Some(symbols) => {
                    let len = sec.size as u32;
                    if address + len > u32::MAX {
                        None
                    } else {
                        Some(
                            LayoutModel {
                                next: (address + len) as u32,
                                data_address,
                                symbols,
                                placements: st.placements.push(Placement { address, padding, len }),
                            },
                        )
                    }
                },
            }
        }
    }
}

/// The layout of the sections `order`, from `base`.
pub open spec fn layout(lib: LibraryModel, base: u32, order: Seq<(usize, usize)>) -> Option<LayoutModel>
    decreases order.len(),
{
    if order.len() == 0 {
        Some(LayoutModel { next: base, data_address: None, symbols: Map::empty(), placements: Seq::empty() })
    } else {
        match layout(lib, base, order.drop_last()) {
            None => None,
            Some(st) => place(lib, st, order.last()),
        }
    }
}

proof fn lemma_layout_fails_on(lib: LibraryModel, base: u32, order: Seq<(usize, usize)>, n: int)
    requires
        0 <= n <= order.len(),
        layout(lib, base, order.subrange(0, n)) is None,
    ensures
        layout(lib, base, order) is None,
    decreases order.len() - n,
{
    if n < order.len() {
        assert(order.subrange(0, n + 1).drop_last() =~= order.subrange(0, n));
        lemma_layout_fails_on(lib, base, order, n + 1);
    } else {
        assert(order.subrange(0, n) =~= order);
    }
}

pub proof fn lemma_layout_len(lib: LibraryModel, base: u32, order: Seq<(usize, usize)>)
    requires
        layout(lib, base, order) is Some,
    ensures
        layout(lib, base, order).unwrap().placements.len() == order.len(),
    decreases order.len(),
{
    if order.len() > 0 {
        lemma_layout_len(lib, base, order.drop_last());
    }
}

/// Enters the global and weak functions of section `section` of `syms` at
/// `address` plus their value.
fn enter_function_symbols(
    syms: &Vec<super::archive::ElfSymbol>,
    section: usize,
    address: u32,
    table: &mut SymbolTable,
) -> (ok: bool)
    requires
        forall|k: int| 0 <= k < syms@.len() ==> (#[trigger] syms@[k]).name is Some,
    ensures
        match add_function_symbols(super::archive::symbols_model(syms@), section as int, address, old(table)@) {
            Some(t) => ok && final(table)@ == t,
            None => !ok,
        },
{
    let ghost model = super::archive::symbols_model(syms@);
    let ghost start = table@;
    let mut i: usize = 0;
    while i < syms.len()
        invariant
            model == super::archive::symbols_model(syms@),
            start == old(table)@,
            forall|k: int| 0 <= k < syms@.len() ==> (#[trigger] syms@[k]).name is Some,
            i <= syms@.len(),
            add_function_symbols(model.subrange(0, i as int), section as int, address, start) == Some(table@),
        decreases syms@.len() - i,
    {
        let ghost next = model.subrange(0, i + 1);
        assert(next.drop_last() =~= model.subrange(0, i as int));
        assert(next.last() == syms@[i as int].model());
        let s = &syms[i];
        let bind = s.info >> 4u8;
        if s.section == section && s.info & 0xfu8 == 2 && (bind == 1 || bind == 2) {
            let value = s.value as u32;
            if value > u32::MAX - address {
                proof {
                    let m = model;
                    assert(add_function_symbols(next, section as int, address, start) is None);
                    assert forall|n: int| i + 1 <= n <= m.len() implies add_function_symbols(
                        m.subrange(0, n),
                        section as int,
                        address,
                        start,
                    ) is None by {
                        lemma_symbols_fail(m, section as int, address, start, i + 1, n);
                    }
                    assert(m.subrange(0, m.len() as int) =~= m);
                }
                return false;
            }
            let name = s.name.as_ref().unwrap().clone();
            table.insert(name, address + value);
        }
        i = i + 1;
    }
    assert(model.subrange(0, i as int) =~= model);
    true
}

proof fn lemma_symbols_fail(
    m: Seq<SymbolModel>,
    section: int,
    address: u32,
    start: Map<Seq<char>, u32>,
    from: int,
    n: int,
)
    requires
        0 <= from <= n <= m.len(),
        add_function_symbols(m.subrange(0, from), section, address, start) is None,
    ensures
        add_function_symbols(m.subrange(0, n), section, address, start) is None,
    decreases n - from,
{
    if n > from {
        lemma_symbols_fail(m, section, address, start, from, n - 1);
        assert(m.subrange(0, n).drop_last() =~= m.subrange(0, n - 1));
    }
}

/// Lays out the sections `order` from `base`: the next free address, the
/// address of the first section that is not text, the symbol table and
/// where each section went (see `layout`).
pub fn lay_out(lib: &Library, base: u32, order: &Vec<(usize, usize)>) -> (r: Option<
    (u32, Option<u32>, SymbolTable, Vec<Placement>),
>)
    requires
        forall|k: int| 0 <= k < order@.len() ==> section_key_ok(lib.model(), #[trigger] order@[k]),
    ensures
        match layout(lib.model(), base, order@) {
            Some(st) => r matches Some((next, data_address, table, placements)) && next == st.next
                && data_address == st.data_address && table@ == st.symbols && placements@ == st.placements,
            None => r is None,
        },
{
    let ghost lm = lib.model();
    let mut next = base;
    let mut data_address: Option<u32> = None;
    let mut table = SymbolTable::new();
    let mut placements: Vec<Placement> = Vec::new();
    let mut i: usize = 0;
    assert(order@.subrange(0, 0) =~= Seq::<(usize, usize)>::empty());
    while i < order.len()
        invariant
            lm == lib.model(),
            forall|k: int| 0 <= k < order@.len() ==> section_key_ok(lm, #[trigger] order@[k]),
            i <= order@.len(),
            layout(lm, base, order@.subrange(0, i as int)) == Some(
                LayoutModel { next, data_address, symbols: table@, placements: placements@ },
            ),
        decreases order@.len() - i,
    {
        let ghost st = LayoutModel { next, data_address, symbols: table@, placements: placements@ };
        let ghost prefix = order@.subrange(0, i + 1);
        assert(prefix.drop_last() =~= order@.subrange(0, i as int));
        let key = order[i];
        assert(prefix.last() == key);
        assert(section_key_ok(lm, key));
        assert(lm.objects[key.0 as int] == super::archive::opt_object(lib.objects@[key.0 as int]));
        let obj = lib.objects[key.0].as_ref().unwrap();
        let sec = &obj.sections[key.1];
        assert(object_at(lm, key.0).sections[key.1 as int] == sec.model());
        let align = sec.align as u32;
        if align == 0 {
            proof {
                lemma_layout_fails_on(lm, base, order@, i + 1);
            }
            return None;
        }
        let rem = next % align;
        let padding: u32 = if rem != 0 {
            align - rem
        } else {
            0
        };
        if padding > u32::MAX - next {
            proof {
                lemma_layout_fails_on(lm, base, order@, i + 1);
            }
            return None;
        }
        let address = next + padding;
        let kind = super::order::kind_of_key(lib, key);
        if data_address.is_none() && kind != SectionKind::TextSection {
            data_address = Some(address);
        }
        assert(super::archive::symbols_model(obj.symbols@) == object_at(lm, key.0).symbols);
        assert forall|k: int| 0 <= k < obj.symbols@.len() implies (#[trigger] obj.symbols@[k]).name is Some by {
            assert(object_at(lm, key.0).symbols[k].name is Some);
            assert(object_at(lm, key.0).symbols[k] == obj.symbols@[k].model());
        }
        if !enter_function_symbols(&obj.symbols, key.1, address, &mut table) {
            proof {
                lemma_layout_fails_on(lm, base, order@, i + 1);
            }
            return None;
        }
        let len = sec.size as u32;
        if len > u32::MAX - address {
            proof {
                lemma_layout_fails_on(lm, base, order@, i + 1);
            }
            return None;
        }
        next = address + len;
        placements.push(Placement { address, padding, len });
        i = i + 1;
    }
    assert(order@.subrange(0, i as int) =~= order@);
    Some((next, data_address, table, placements))
}

/// The alignment and size of the section of `key`, as the layout takes them.
pub open spec fn key_align(lib: LibraryModel, key: (usize, usize)) -> u32 {
    object_at(lib, key.0).sections[key.1 as int].align as u32
}

pub open spec fn key_size(lib: LibraryModel, key: (usize, usize)) -> u32 {
    object_at(lib, key.0).sections[key.1 as int].size as u32
}

proof fn lemma_padding_aligns(next: u32, align: u32)
    requires
        align > 0,
    ensures
        next % align != 0 ==> (next + (align - next % align)) % (align as int) == 0,
        next % align == 0 ==> (next as int) % (align as int) == 0,
{
    let a = align as int;
    let n = next as int;
    let q = n / a;
    let r = n % a;
    assert(n == q * a + r && 0 <= r < a) by (nonlinear_arith)
        requires
            a > 0,
            q == n / a,
            r == n % a,
    ;
    if r != 0 {
        assert(n + (a - r) == (q + 1) * a) by (nonlinear_arith)
            requires
                n == q * a + r,
        ;
        assert(((q + 1) * a) % a == 0) by (nonlinear_arith)
            requires
                a > 0,
        ;
    }
}

/// Each section of a layout starts at a multiple of its alignment, takes
/// its size, starts at or after the base address and after the end of the
/// section before it, and ends at or before the next free address.
pub proof fn lemma_layout_placements(lib: LibraryModel, base: u32, order: Seq<(usize, usize)>)
    requires
        layout(lib, base, order) is Some,
    ensures
        ({
            let st = layout(lib, base, order).unwrap();
            &&& st.placements.len() == order.len()
            &&& st.next >= base
            &&& forall|j: int|
                0 <= j < order.len() ==> {
                    &&& ((#[trigger] st.placements[j]).address as int) % (key_align(lib, order[j]) as int) == 0
                    &&& st.placements[j].len == key_size(lib, order[j])
                    &&& st.placements[j].address >= base
                    &&& st.placements[j].address + st.placements[j].len <= st.next
                }
            &&& forall|j: int|
                0 <= j < order.len() - 1 ==> (#[trigger] st.placements[j]).address + st.placements[j].len
                    <= st.placements[j + 1].address
        }),
    decreases order.len(),
{
    if order.len() > 0 {
        let prev = order.drop_last();
        lemma_layout_placements(lib, base, prev);
        let st0 = layout(lib, base, prev).unwrap();
        let st = layout(lib, base, order).unwrap();
        let key = order.last();
        let align = key_align(lib, key);
        lemma_padding_aligns(st0.next, align);
        assert forall|j: int| 0 <= j < order.len() implies {
            &&& ((#[trigger] st.placements[j]).address as int) % (key_align(lib, order[j]) as int) == 0
            &&& st.placements[j].len == key_size(lib, order[j])
            &&& st.placements[j].address >= base
            &&& st.placements[j].address + st.placements[j].len <= st.next
        } by {
            if j < prev.len() {
                assert(st.placements[j] == st0.placements[j]);
                assert(order[j] == prev[j]);
                assert(st0.placements[j].address + st0.placements[j].len <= st0.next);
            }
        }
        assert forall|j: int| 0 <= j < order.len() - 1 implies (#[trigger] st.placements[j]).address
            + st.placements[j].len <= st.placements[j + 1].address by {
            assert(st.placements[j] == st0.placements[j]);
            if j + 1 < prev.len() {
                assert(st.placements[j + 1] == st0.placements[j + 1]);
            }
        }
    }
}

} // verus!
