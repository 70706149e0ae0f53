//! A static linker for the hack's code: from the objects of a static library
//! it takes the sections that the entry symbols need, lays them out from a
//! base address and applies their PowerPC relocations.
pub mod ar_format;
pub mod archive;
pub mod closure;
pub mod order;
pub mod layout;
pub mod relocate;
pub mod image;

use self::archive::{opt_object, Library, LibraryModel, SymbolModel};
use self::closure::{closure_fails, entry_texts, in_closure, object_at, section_item, section_key_ok, Item};
use self::layout::{lay_out, layout, lemma_layout_len, LayoutModel, Placement};
use self::order::{key_kind, lemma_sorted_unique, sort_sections, sorted_keys};
use self::archive::lemma_member_named;
pub use self::order::SectionKind;
use self::relocate::{emit, relocated_section, section_contents, zeros};
use crate::compiler::dol::{DolFile, Section};
use crate::compiler::symbols::SymbolTable;
use vstd::prelude::*;

verus! {

/// The result of a link: the code and data as a DOL, the addresses of the
/// global functions, and where each section went.
pub struct Linked {
    pub dol: DolFile,
    pub symbol_table: SymbolTable,
    pub sections: Vec<LinkedSection>,
}

/// A section of the link: its address and length, the member and the name it
/// comes from, the value of its first function symbol and its kind.
pub struct LinkedSection {
    pub address: u32,
    pub len: u32,
    pub member_name: String,
    pub section_name: String,
    pub sym_offset: u32,
    pub kind: SectionKind,
}

pub struct LinkedSectionModel {
    pub address: u32,
    pub len: u32,
    pub member_name: Seq<char>,
    pub section_name: Seq<char>,
    pub sym_offset: u32,
    pub kind: SectionKind,
}

impl LinkedSection {
    pub open spec fn model(&self) -> LinkedSectionModel {
        LinkedSectionModel {
            address: self.address,
            len: self.len,
            member_name: self.member_name@,
            section_name: self.section_name@,
            sym_offset: self.sym_offset,
            kind: self.kind,
        }
    }
}

/// A link as values: the text (loaded at the base address), the data and
/// where it is loaded, the symbol table and the sections.
pub struct LinkedModel {
    pub text: Seq<u8>,
    pub data: Seq<u8>,
    pub data_address: u32,
    pub symbols: Map<Seq<char>, u32>,
    pub sections: Seq<LinkedSectionModel>,
}

/// The first function symbol from index `i` on that lies in section `section`.
pub open spec fn first_function_from(syms: Seq<SymbolModel>, section: int, i: int) -> Option<int>
    decreases syms.len() - i,
{
    if i < 0 || i >= syms.len() {
        None
    } else if syms[i].section == section && self::closure::is_function(syms[i]) {
        Some(i)
    } else {
        first_function_from(syms, section, i + 1)
    }
}

/// The description of the `j`-th placed section; `None` where its header
/// has no name.
pub open spec fn describe(lib: LibraryModel, order: Seq<(usize, usize)>, placements: Seq<Placement>, j: int) -> Option<
    LinkedSectionModel,
> {
    let key = order[j];
    let o = object_at(lib, key.0);
    match o.sections[key.1 as int].name {
        None => None,
        Some(name) => Some(
            LinkedSectionModel {
                address: placements[j].address,
                len: placements[j].len,
                member_name: lib.members[key.0 as int].name,
                section_name: name,
                sym_offset: match first_function_from(o.symbols, key.1 as int, 0) {
                    Some(f) => o.symbols[f].value as u32,
                    None => 0,
                },
                kind: key_kind(lib, key),
            },
        ),
    }
}

pub open spec fn describe_all(lib: LibraryModel, order: Seq<(usize, usize)>, placements: Seq<Placement>, n: int) -> Option<
    Seq<LinkedSectionModel>,
>
    decreases n,
{
    if n <= 0 {
        Some(Seq::empty())
    } else {
        match describe_all(lib, order, placements, n - 1) {
            None => None,
            Some(s) => match describe(lib, order, placements, n - 1) {
                None => None,
                Some(d) => Some(s.push(d)),
            },
        }
    }
}

/// The link of the sections `order` from `base`.
pub open spec fn link_result(lib: LibraryModel, base: u32, order: Seq<(usize, usize)>) -> Option<LinkedModel> {
    match layout(lib, base, order) {
        None => None,
        Some(st) => match emit(lib, order, st.placements, order.len() as int) {
            None => None,
            Some((text, data)) => match describe_all(lib, order, st.placements, order.len() as int) {
                None => None,
                Some(sections) => Some(
                    LinkedModel {
                        text,
                        data,
                        data_address: match st.data_address {
                            Some(a) => a,
                            None => base,
                        },
                        symbols: st.symbols,
                        sections,
                    },
                ),
            },
        },
    }
}

/// Whether `order` lists the sections reached from `entries`, each once, in
/// layout order.
pub open spec fn layout_order(lib: LibraryModel, entries: Seq<Seq<char>>, order: Seq<(usize, usize)>) -> bool {
    &&& sorted_keys(lib, order)
    &&& forall|k: int|
        0 <= k < order.len() ==> section_key_ok(lib, #[trigger] order[k]) && in_closure(
            lib,
            entries,
            section_item(lib, order[k]),
        )
    &&& forall|m: Seq<char>, s: int|
        #[trigger] in_closure(lib, entries, Item::Section(m, s)) ==> exists|k: int|
            0 <= k < order.len() && section_item(lib, order[k]) == Item::Section(m, s)
}

impl Linked {
    pub open spec fn model(&self) -> LinkedModel {
        LinkedModel {
            text: self.dol.text_sections@[0].data@,
            data: self.dol.data_sections@[0].data@,
            data_address: self.dol.data_sections@[0].address,
            symbols: self.symbol_table@,
            sections: self.sections@.map_values(|s: LinkedSection| s.model()),
        }
    }

    /// The shape of the DOL of a link: one text section at `base`, one data
    /// section, no zero-filled area and entry point 0.
    pub open spec fn dol_shape(&self, base: u32) -> bool {
        &&& self.dol.text_sections@.len() == 1
        &&& self.dol.text_sections@[0].address == base
        &&& self.dol.data_sections@.len() == 1
        &&& self.dol.bss_address == 0
        &&& self.dol.bss_size == 0
        &&& self.dol.entry_point == 0
    }
}

/// Whether linking `entries` from `lib` at `base` succeeds.
pub open spec fn link_succeeds(lib: LibraryModel, base: u32, entries: Seq<Seq<char>>) -> bool {
    &&& !closure_fails(lib, entries)
    &&& exists|order: Seq<(usize, usize)>| layout_order(lib, entries, order) && link_result(lib, base, order) is Some
}

proof fn lemma_emit_fails(lib: LibraryModel, order: Seq<(usize, usize)>, placements: Seq<Placement>, from: int, n: int)
    requires
        0 <= from <= n,
        emit(lib, order, placements, from) is None,
    ensures
        emit(lib, order, placements, n) is None,
    decreases n - from,
{
    if n > from {
        lemma_emit_fails(lib, order, placements, from, n - 1);
    }
}

proof fn lemma_describe_fails(
    lib: LibraryModel,
    order: Seq<(usize, usize)>,
    placements: Seq<Placement>,
    from: int,
    n: int,
)
    requires
        0 <= from <= n,
        describe_all(lib, order, placements, from) is None,
    ensures
        describe_all(lib, order, placements, n) is None,
    decreases n - from,
{
    if n > from {
        lemma_describe_fails(lib, order, placements, from, n - 1);
    }
}

/// Appends `n` zero bytes to `v`.
fn push_zeros(v: &mut Vec<u8>, n: u64)
    ensures
        final(v)@ == old(v)@ + zeros(n as nat),
{
    let ghost start = v@;
    let mut i: u64 = 0;
    while i < n
        invariant
            i <= n,
            v@ == start + zeros(i as nat),
        decreases n - i,
    {
        v.push(0);
        i = i + 1;
        assert(v@ =~= start + zeros(i as nat));
    }
}

/// The text and data of the placed sections (see `emit`).
fn emit_sections(lib: &Library, order: &Vec<(usize, usize)>, placements: &Vec<Placement>) -> (r: Option<
    (Vec<u8>, Vec<u8>),
>)
    requires
        placements@.len() == order@.len(),
        forall|k: int| 0 <= k < order@.len() ==> section_key_ok(lib.model(), #[trigger] order@[k]),
    ensures
        match emit(lib.model(), order@, placements@, order@.len() as int) {
            Some((text, data)) => r matches Some((t, d)) && t@ == text && d@ == data,
            None => r is None,
        },
{
    let ghost lm = lib.model();
    let mut text: Vec<u8> = Vec::new();
    let mut data: Vec<u8> = Vec::new();
    let mut j: usize = 0;
    while j < order.len()
        invariant
            lm == lib.model(),
            placements@.len() == order@.len(),
            forall|k: int| 0 <= k < order@.len() ==> section_key_ok(lm, #[trigger] order@[k]),
            j <= order@.len(),
            emit(lm, order@, placements@, j as int) == Some((text@, data@)),
        decreases order@.len() - j,
    {
        let mut contents = match relocated_section(lib, order, placements, j) {
            Some(c) => c,
            None => {
                proof {
                    lemma_emit_fails(lm, order@, placements@, j + 1, order@.len() as int);
                }
                return None;
            },
        };
        let key = order[j];
        let padding = placements[j].padding;
        let kind = self::order::kind_of_key(lib, key);
        match kind {
            SectionKind::TextSection => {
                push_zeros(&mut text, padding as u64);
                text.append(&mut contents);
            },
            SectionKind::DataSection => {
                push_zeros(&mut data, padding as u64);
                data.append(&mut contents);
            },
            SectionKind::BlockStartedBySymbol => {
                push_zeros(&mut data, padding as u64);
                assert(lm.objects[key.0 as int] == opt_object(lib.objects@[key.0 as int]));
                let obj = lib.objects[key.0].as_ref().unwrap();
                assert(object_at(lm, key.0).sections[key.1 as int] == obj.sections@[key.1 as int].model());
                push_zeros(&mut data, obj.sections[key.1].size);
            },
        }
        j = j + 1;
    }
    Some((text, data))
}

/// The first function symbol of `syms` that lies in section `section`.
fn first_function(syms: &Vec<self::archive::ElfSymbol>, section: usize) -> (r: Option<usize>)
    ensures
        match r {
            Some(f) => first_function_from(self::archive::symbols_model(syms@), section as int, 0) == Some(f as int)
                && f < syms@.len(),
            None => first_function_from(self::archive::symbols_model(syms@), section as int, 0) is None,
        },
{
    let ghost m = self::archive::symbols_model(syms@);
    let mut i: usize = 0;
    while i < syms.len()
        invariant
            m == self::archive::symbols_model(syms@),
            i <= syms@.len(),
            first_function_from(m, section as int, 0) == first_function_from(m, section as int, i as int),
        decreases syms@.len() - i,
    {
        assert(m[i as int] == syms@[i as int].model());
        if syms[i].section == section && syms[i].info & 0xfu8 == 2 {
            return Some(i);
        }
        i = i + 1;
    }
    None
}

/// The descriptions of the placed sections (see `describe`).
fn describe_sections(lib: &Library, order: &Vec<(usize, usize)>, placements: &Vec<Placement>) -> (r: Option<
    Vec<LinkedSection>,
>)
    requires
        placements@.len() == order@.len(),
        forall|k: int| 0 <= k < order@.len() ==> section_key_ok(lib.model(), #[trigger] order@[k]),
    ensures
        match describe_all(lib.model(), order@, placements@, order@.len() as int) {
            Some(s) => r matches Some(v) && v@.map_values(|x: LinkedSection| x.model()) == s,
            None => r is None,
        },
{
    let ghost lm = lib.model();
    let mut out: Vec<LinkedSection> = Vec::new();
    let mut j: usize = 0;
    while j < order.len()
        invariant
            lm == lib.model(),
            placements@.len() == order@.len(),
            forall|k: int| 0 <= k < order@.len() ==> section_key_ok(lm, #[trigger] order@[k]),
            j <= order@.len(),
            out@.len() == j,
            describe_all(lm, order@, placements@, j as int) == Some(
                out@.map_values(|x: LinkedSection| x.model()),
            ),
        decreases order@.len() - j,
    {
        let key = order[j];
        assert(section_key_ok(lm, key));
        assert(lm.objects[key.0 as int] == opt_object(lib.objects@[key.0 as int]));
        let obj = lib.objects[key.0].as_ref().unwrap();
        let ghost o = obj.model();
        assert(o.sections[key.1 as int] == obj.sections@[key.1 as int].model());
        let section_name = match &obj.sections[key.1].name {
            Some(n) => n.clone(),
            None => {
                proof {
                    lemma_describe_fails(lm, order@, placements@, j + 1, order@.len() as int);
                }
                return None;
            },
        };
        let sym_offset = match first_function(&obj.symbols, key.1) {
            Some(f) => {
                assert(o.symbols[f as int] == obj.symbols@[f as int].model());
                obj.symbols[f].value as u32
            },
            None => 0,
        };
        assert(lm.members[key.0 as int] == lib.members@[key.0 as int].model());
        let kind = self::order::kind_of_key(lib, key);
        let ghost before = out@.map_values(|x: LinkedSection| x.model());
        out.push(
            LinkedSection {
                address: placements[j].address,
                len: placements[j].len,
                member_name: lib.members[key.0].name.clone(),
                section_name,
                sym_offset,
                kind,
            },
        );
        assert(out@.map_values(|x: LinkedSection| x.model()) =~= before.push(out@[j as int].model()));
        j = j + 1;
    }
    Some(out)
}

/// The sections that a link takes have one layout order: two lists of them
/// in layout order are the same list.
pub proof fn lemma_layout_order_unique(
    lib: LibraryModel,
    entries: Seq<Seq<char>>,
    a: Seq<(usize, usize)>,
    b: Seq<(usize, usize)>,
)
    requires
        layout_order(lib, entries, a),
        layout_order(lib, entries, b),
    ensures
        a == b,
{
    assert forall|x: (usize, usize)| a.to_set().contains(x) implies b.to_set().contains(x) by {
        lemma_same_section(lib, entries, a, b, x);
    }
    assert forall|x: (usize, usize)| b.to_set().contains(x) implies a.to_set().contains(x) by {
        lemma_same_section(lib, entries, b, a, x);
    }
    assert(a.to_set() =~= b.to_set());
    lemma_sorted_unique(lib, a, b);
}

proof fn lemma_same_section(
    lib: LibraryModel,
    entries: Seq<Seq<char>>,
    a: Seq<(usize, usize)>,
    b: Seq<(usize, usize)>,
    x: (usize, usize),
)
    requires
        layout_order(lib, entries, a),
        layout_order(lib, entries, b),
        a.to_set().contains(x),
    ensures
        b.to_set().contains(x),
{
    let i = choose|i: int| 0 <= i < a.len() && a[i] == x;
    assert(section_key_ok(lib, a[i]) && in_closure(lib, entries, section_item(lib, a[i])));
    let item = section_item(lib, x);
    assert(in_closure(lib, entries, Item::Section(item->Section_0, item->Section_1)));
    let k = choose|k: int| 0 <= k < b.len() && section_item(lib, b[k]) == Item::Section(item->Section_0, item->Section_1);
    assert(section_key_ok(lib, b[k]));
    let y = b[k];
    assert(lib.members[y.0 as int].name == lib.members[x.0 as int].name);
    assert(y.0 == x.0);
    assert(y.1 as int == x.1 as int);
    assert(y == x);
    assert(b.to_set().contains(b[k]));
}

/// Links the sections of `lib` that the symbols `entries` need, from
/// `base_address` on: text first, then data, each kind ordered by member name
/// and section index, with relocations applied. `None` exactly where the
/// search for the sections gives up (see `closure_fails`) or the layout,
/// relocation or naming of a section does (see `link_result`).
pub fn try_link(lib: &Library, base_address: u32, entries: Vec<&str>) -> (r: Option<Linked>)
    ensures
        closure_fails(lib.model(), entry_texts(entries@)) ==> r is None,
        !closure_fails(lib.model(), entry_texts(entries@)) ==> exists|order: Seq<(usize, usize)>|
            #[trigger] layout_order(lib.model(), entry_texts(entries@), order) && match link_result(
                lib.model(),
                base_address,
                order,
            ) {
                Some(l) => r matches Some(v) && v.model() == l && v.dol_shape(base_address),
                None => r is None,
            },
{
    let ghost lm = lib.model();
    let ghost es = entry_texts(entries@);
    let visited = match self::closure::collect_sections(lib, &entries) {
        Some(v) => v,
        None => {
            return None;
        },
    };
    let order = sort_sections(lib, &visited);
    proof {
        assert forall|k: int| 0 <= k < order@.len() implies section_key_ok(lm, #[trigger] order@[k]) && in_closure(
            lm,
            es,
            section_item(lm, order@[k]),
        ) by {
            assert(order@.to_set().contains(order@[k]));
            assert(visited@.to_set().contains(order@[k]));
            let j = choose|j: int| 0 <= j < visited@.len() && visited@[j] == order@[k];
            assert(section_key_ok(lm, visited@[j]));
        }
        assert forall|m: Seq<char>, s: int| #[trigger] in_closure(lm, es, Item::Section(m, s)) implies exists|k: int|
            0 <= k < order@.len() && section_item(lm, order@[k]) == Item::Section(m, s) by {
            let j = choose|j: int| 0 <= j < visited@.len() && section_item(lm, visited@[j]) == Item::Section(m, s);
            assert(visited@.to_set().contains(visited@[j]));
            assert(order@.to_set().contains(visited@[j]));
            let k = choose|k: int| 0 <= k < order@.len() && order@[k] == visited@[j];
            assert(section_item(lm, order@[k]) == Item::Section(m, s));
        }
        assert(layout_order(lm, es, order@));
    }
    let (_next, data_address, symbol_table, placements) = match lay_out(lib, base_address, &order) {
        Some(l) => l,
        None => {
            return None;
        },
    };
    proof {
        lemma_layout_len(lm, base_address, order@);
    }
    let (text, data) = match emit_sections(lib, &order, &placements) {
        Some(td) => td,
        None => {
            return None;
        },
    };
    let sections = match describe_sections(lib, &order, &placements) {
        Some(s) => s,
        None => {
            return None;
        },
    };
    let data_start = match data_address {
        Some(a) => a,
        None => base_address,
    };
    let dol = DolFile {
        text_sections: vec![Section { address: base_address, data: text }],
        data_sections: vec![Section { address: data_start, data: data }],
        bss_address: 0,
        bss_size: 0,
        entry_point: 0,
    };
    let linked = Linked { dol, symbol_table, sections };
    assert(linked.model() == link_result(lm, base_address, order@).unwrap());
    Some(linked)
}

/// Links the sections of `lib` that the symbols `entries` need (see
/// `try_link`), on inputs where that succeeds.
pub fn link(lib: &Library, base_address: u32, entries: Vec<&str>) -> (r: Linked)
    requires
        link_succeeds(lib.model(), base_address, entry_texts(entries@)),
    ensures
        exists|order: Seq<(usize, usize)>|
            #[trigger] layout_order(lib.model(), entry_texts(entries@), order) && link_result(
                lib.model(),
                base_address,
                order,
            ) == Some(r.model()) && r.dol_shape(base_address),
{
    match try_link(lib, base_address, entries) {
        Some(l) => l,
        None => {
            proof {
                let order = choose|order: Seq<(usize, usize)>|
                    layout_order(lib.model(), entry_texts(entries@), order) && link_result(
                        lib.model(),
                        base_address,
                        order,
                    ) is Some;
                let other = choose|o: Seq<(usize, usize)>|
                    #[trigger] layout_order(lib.model(), entry_texts(entries@), o) && link_result(
                        lib.model(),
                        base_address,
                        o,
                    ) is None;
                lemma_layout_order_unique(lib.model(), entry_texts(entries@), order, other);
                assert(false);
            }
            Linked {
                dol: DolFile {
                    text_sections: Vec::new(),
                    data_sections: Vec::new(),
                    bss_address: 0,
                    bss_size: 0,
                    entry_point: 0,
                },
                symbol_table: SymbolTable::new(),
                sections: Vec::new(),
            }
        },
    }
}

} // verus!
