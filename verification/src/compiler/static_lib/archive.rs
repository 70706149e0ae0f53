//! The parts of a static library (a Unix `ar` archive of ELF object files)
//! that the linker reads, as plain values. `goblin` parses the archive and the
//! objects; everything here after that is plain data.
use super::ar_format::{archive_checked, check_archive};
use crate::text::str_eq;
use vstd::prelude::*;
use vstd::slice::{slice_subrange, slice_to_vec};

verus! {

/// A member of the archive: its name, where its bytes lie in the archive and
/// the symbols that the archive's symbol index assigns to it.
pub struct ArchiveMember {
    pub name: String,
    pub offset: usize,
    pub size: usize,
    pub symbols: Vec<String>,
}

pub struct MemberModel {
    pub name: Seq<char>,
    pub offset: usize,
    pub size: usize,
    pub symbols: Seq<Seq<char>>,
}

impl ArchiveMember {
    pub open spec fn model(&self) -> MemberModel {
        MemberModel {
            name: self.name@,
            offset: self.offset,
            size: self.size,
            symbols: texts(self.symbols@),
        }
    }
}

pub open spec fn texts(v: Seq<String>) -> Seq<Seq<char>> {
    v.map_values(|t: String| t@)
}

pub open spec fn members_model(members: Seq<ArchiveMember>) -> Seq<MemberModel> {
    members.map_values(|m: ArchiveMember| m.model())
}

/// An entry of an object's symbol table: its name (`None` where the string
/// table has none), `st_info`, `st_shndx` and `st_value`.
pub struct ElfSymbol {
    pub name: Option<String>,
    pub info: u8,
    pub section: usize,
    pub value: u64,
}

pub struct SymbolModel {
    pub name: Option<Seq<char>>,
    pub info: u8,
    pub section: usize,
    pub value: u64,
}

/// A section header: its name (`None` where the string table has none),
/// `sh_type`, `sh_flags`, `sh_offset`, `sh_size`, `sh_addralign` and `sh_info`.
pub struct ElfSection {
    pub name: Option<String>,
    pub kind: u32,
    pub flags: u64,
    pub offset: u64,
    pub size: u64,
    pub align: u64,
    pub info: u32,
}

pub struct SectionModel {
    pub name: Option<Seq<char>>,
    pub kind: u32,
    pub flags: u64,
    pub offset: u64,
    pub size: u64,
    pub align: u64,
    pub info: u32,
}

/// A relocation: `r_offset`, `r_addend`, `r_sym` and `r_type`.
#[derive(Clone, Copy)]
pub struct ElfReloc {
    pub offset: u64,
    pub addend: Option<i64>,
    pub symbol: usize,
    pub kind: u32,
}

/// The relocations of a relocation section, with the index of that section's
/// header (whose `sh_info` names the section they apply to).
pub struct RelocTable {
    pub header: usize,
    pub relocs: Vec<ElfReloc>,
}

pub struct RelocTableModel {
    pub header: usize,
    pub relocs: Seq<ElfReloc>,
}

pub open spec fn opt_text(s: Option<String>) -> Option<Seq<char>> {
    match s {
        Some(t) => Some(t@),
        None => None,
    }
}

impl ElfSymbol {
    pub open spec fn model(&self) -> SymbolModel {
        SymbolModel { name: opt_text(self.name), info: self.info, section: self.section, value: self.value }
    }
}

impl ElfSection {
    pub open spec fn model(&self) -> SectionModel {
        SectionModel {
            name: opt_text(self.name),
            kind: self.kind,
            flags: self.flags,
            offset: self.offset,
            size: self.size,
            align: self.align,
            info: self.info,
        }
    }
}

impl RelocTable {
    pub open spec fn model(&self) -> RelocTableModel {
        RelocTableModel { header: self.header, relocs: self.relocs@ }
    }
}

pub open spec fn symbols_model(v: Seq<ElfSymbol>) -> Seq<SymbolModel> {
    v.map_values(|s: ElfSymbol| s.model())
}

pub open spec fn sections_model(v: Seq<ElfSection>) -> Seq<SectionModel> {
    v.map_values(|s: ElfSection| s.model())
}

pub open spec fn relocs_model(v: Seq<RelocTable>) -> Seq<RelocTableModel> {
    v.map_values(|t: RelocTable| t.model())
}

/// What goblin's `Archive::parse` followed by `Archive::summarize` gives for
/// the archive `buf`, or `None` where it does not parse.
pub uninterp spec fn archive_summary(buf: Seq<u8>) -> Option<Seq<MemberModel>>;

/// The symbol table that goblin's `Elf::parse` reads from an object file,
/// with each name looked up in `strtab`, or `None` where it does not parse.
pub uninterp spec fn elf_symbol_table(bytes: Seq<u8>) -> Option<Seq<SymbolModel>>;

/// The section headers that goblin's `Elf::parse` reads from an object file,
/// with each name looked up in `shdr_strtab`, or `None` where it does not parse.
pub uninterp spec fn elf_section_headers(bytes: Seq<u8>) -> Option<Seq<SectionModel>>;

/// The relocation sections (`shdr_relocs`) that goblin's `Elf::parse` reads
/// from an object file, or `None` where it does not parse.
pub uninterp spec fn elf_relocation_tables(bytes: Seq<u8>) -> Option<Seq<RelocTableModel>>;

/// goblin's `Archive::parse` on `buf`, then `Archive::summarize`: each member
/// in archive order with its extended name, the offset and size of its bytes,
/// and the symbols that the symbol index assigns to it. The result is named
/// `archive_summary`; nothing more of it is stated. `requires` keeps out the
/// archives on which goblin's source can panic: a symbol-index offset that
/// names no member (the lookup in `member_index_by_offset`), a second `/`
/// member (read as a Windows linker member, whose index arithmetic can go out
/// of range), a BSD `#1/` name (whose length is subtracted from the size), an
/// empty `//` name table (whose offset arithmetic underflows), a name that is
/// not ASCII (sliced at byte 3), an index count larger than its member (the
/// vector's capacity), and offsets that do not fit the `u32` that goblin keys
/// them by.
#[verifier::external_body]
fn read_archive(buf: &[u8]) -> (r: Option<Vec<ArchiveMember>>)
    requires
        archive_checked(buf@),
    ensures
        archive_summary(buf@) == (match r {
            Some(v) => Some(members_model(v@)),
            None => None,
        }),
{
    let archive = goblin::archive::Archive::parse(buf).ok()?;
    let members = archive.summarize().into_iter().map(|(name, member, symbols)| ArchiveMember {
        name: name.to_string(),
        offset: member.offset as usize,
        size: member.header.size,
        symbols: symbols.into_iter().map(String::from).collect(),
    });
    Some(members.collect())
}

/// The ELF header of `bytes` is complete (64 bytes cover both classes) and
/// its class is 32 or 64 bits with no program headers (`e_phnum` zero), as in
/// a relocatable object.
pub open spec fn elf_checked(b: Seq<u8>) -> bool {
    &&& b.len() >= 64
    &&& (b[4] == 1 && b[44] == 0 && b[45] == 0) || (b[4] == 2 && b[56] == 0 && b[57] == 0)
}

/// Whether `bytes` is `elf_checked`.
fn check_elf(bytes: &[u8]) -> (r: bool)
    ensures
        r == elf_checked(bytes@),
{
    bytes.len() >= 64 && ((bytes[4] == 1 && bytes[44] == 0 && bytes[45] == 0) || (bytes[4] == 2
        && bytes[56] == 0 && bytes[57] == 0))
}

/// goblin's `Elf::parse` on `bytes`, then its symbol table (`syms`), each name
/// looked up with `strtab.get`. The result is named `elf_symbol_table`;
/// nothing more of it is stated.
/// `requires` keeps to headers without program headers: with none, goblin
/// reads no dynamic section, hash table or interpreter, and its header,
/// section-header, string-table, symbol and relocation readers only return
/// errors on malformed input.
#[verifier::external_body]
fn read_elf_symbols(bytes: &[u8]) -> (r: Option<Vec<ElfSymbol>>)
    requires
        elf_checked(bytes@),
    ensures
        elf_symbol_table(bytes@) == (match r {
            Some(v) => Some(symbols_model(v@)),
            None => None,
        }),
{
    let elf = goblin::elf::Elf::parse(bytes).ok()?;
    let symbols = elf.syms.iter().map(|s| ElfSymbol {
        name: elf.strtab.get(s.st_name).and_then(|n| n.ok()).map(String::from),
        info: s.st_info,
        section: s.st_shndx,
        value: s.st_value,
    });
    Some(symbols.collect())
}

/// goblin's `Elf::parse` on `bytes`, then its section headers, each name
/// looked up with `shdr_strtab.get`. The result is named
/// `elf_section_headers`; nothing more of it is stated.
/// `requires` keeps to headers without program headers: with none, goblin
/// reads no dynamic section, hash table or interpreter, and its header,
/// section-header, string-table, symbol and relocation readers only return
/// errors on malformed input.
#[verifier::external_body]
fn read_elf_sections(bytes: &[u8]) -> (r: Option<Vec<ElfSection>>)
    requires
        elf_checked(bytes@),
    ensures
        elf_section_headers(bytes@) == (match r {
            Some(v) => Some(sections_model(v@)),
            None => None,
        }),
{
    let elf = goblin::elf::Elf::parse(bytes).ok()?;
    let sections = elf.section_headers.iter().map(|h| ElfSection {
        name: elf.shdr_strtab.get(h.sh_name).and_then(|n| n.ok()).map(String::from),
        kind: h.sh_type,
        flags: h.sh_flags,
        offset: h.sh_offset,
        size: h.sh_size,
        align: h.sh_addralign,
        info: h.sh_info,
    });
    Some(sections.collect())
}

/// goblin's `Elf::parse` on `bytes`, then its relocation sections
/// (`shdr_relocs`). The result is named `elf_relocation_tables`; nothing more
/// of it is stated.
/// `requires` keeps to headers without program headers: with none, goblin
/// reads no dynamic section, hash table or interpreter, and its header,
/// section-header, string-table, symbol and relocation readers only return
/// errors on malformed input.
#[verifier::external_body]
fn read_elf_relocations(bytes: &[u8]) -> (r: Option<Vec<RelocTable>>)
    requires
        elf_checked(bytes@),
    ensures
        elf_relocation_tables(bytes@) == (match r {
            Some(v) => Some(relocs_model(v@)),
            None => None,
        }),
{
    let elf = goblin::elf::Elf::parse(bytes).ok()?;
    let tables = elf.shdr_relocs.iter().map(|(header, relocs)| RelocTable {
        header: *header,
        relocs: relocs.iter().map(|r| ElfReloc {
            offset: r.r_offset,
            addend: r.r_addend,
            symbol: r.r_sym,
            kind: r.r_type,
        }).collect(),
    });
    Some(tables.collect())
}

/// An object file of the archive, parsed: its bytes, symbols, section headers
/// and relocation sections. Every symbol has a name.
pub struct ObjectFile {
    pub bytes: Vec<u8>,
    pub symbols: Vec<ElfSymbol>,
    pub sections: Vec<ElfSection>,
    pub relocations: Vec<RelocTable>,
}

pub struct ObjectModel {
    pub bytes: Seq<u8>,
    pub symbols: Seq<SymbolModel>,
    pub sections: Seq<SectionModel>,
    pub relocations: Seq<RelocTableModel>,
}

impl ObjectFile {
    pub open spec fn model(&self) -> ObjectModel {
        ObjectModel {
            bytes: self.bytes@,
            symbols: symbols_model(self.symbols@),
            sections: sections_model(self.sections@),
            relocations: relocs_model(self.relocations@),
        }
    }
}

pub open spec fn all_named(symbols: Seq<SymbolModel>) -> bool {
    forall|i: int| 0 <= i < symbols.len() ==> (#[trigger] symbols[i]).name is Some
}

/// The object that the bytes `bytes` hold, where they are `elf_checked`,
/// goblin parses them and every symbol has a name.
pub open spec fn object_model(bytes: Seq<u8>) -> Option<ObjectModel> {
    if !elf_checked(bytes) {
        None
    } else {
        object_parts(bytes)
    }
}

pub open spec fn object_parts(bytes: Seq<u8>) -> Option<ObjectModel> {
    match (elf_symbol_table(bytes), elf_section_headers(bytes), elf_relocation_tables(bytes)) {
        (Some(symbols), Some(sections), Some(relocations)) => if all_named(symbols) {
            Some(ObjectModel { bytes, symbols, sections, relocations })
        } else {
            None
        },
        _ => None,
    }
}

/// The bytes of `member` in the archive `buf`, where they lie inside it.
pub open spec fn member_bytes(buf: Seq<u8>, member: MemberModel) -> Option<Seq<u8>> {
    if member.offset <= buf.len() && member.size <= buf.len() - member.offset {
        Some(buf.subrange(member.offset as int, member.offset + member.size))
    } else {
        None
    }
}

pub open spec fn member_object(buf: Seq<u8>, member: MemberModel) -> Option<ObjectModel> {
    match member_bytes(buf, member) {
        Some(bytes) => object_model(bytes),
        None => None,
    }
}

/// An archive with each member's object, where it could be read.
pub struct Library {
    pub members: Vec<ArchiveMember>,
    pub objects: Vec<Option<ObjectFile>>,
}

pub struct LibraryModel {
    pub members: Seq<MemberModel>,
    pub objects: Seq<Option<ObjectModel>>,
}

pub open spec fn opt_object(o: Option<ObjectFile>) -> Option<ObjectModel> {
    match o {
        Some(f) => Some(f.model()),
        None => None,
    }
}

impl Library {
    pub open spec fn model(&self) -> LibraryModel {
        LibraryModel {
            members: members_model(self.members@),
            objects: self.objects@.map_values(|o: Option<ObjectFile>| opt_object(o)),
        }
    }
}

/// The archive `buf` as the linker reads it: where it has the layout that
/// `archive_checked` describes, its members, and for each the object that its
/// bytes hold.
pub open spec fn library_of(buf: Seq<u8>) -> Option<LibraryModel> {
    if !archive_checked(buf) {
        None
    } else {
        match archive_summary(buf) {
            Some(members) => Some(
                LibraryModel {
                    members,
                    objects: members.map_values(|m: MemberModel| member_object(buf, m)),
                },
            ),
            None => None,
        }
    }
}

/// Reads a member's object: `None` where its bytes lie outside the archive,
/// goblin cannot parse them or a symbol has no name.
#[verifier::loop_isolation(false)]
fn load_object(buf: &[u8], member: &ArchiveMember) -> (r: Option<ObjectFile>)
    ensures
        opt_object(r) == member_object(buf@, member.model()),
{
    if member.offset > buf.len() || member.size > buf.len() - member.offset {
        return None;
    }
    let slice = slice_subrange(buf, member.offset, member.offset + member.size);
    if !check_elf(slice) {
        return None;
    }
    let symbols = match read_elf_symbols(slice) {
        Some(s) => s,
        None => return None,
    };
    let sections = match read_elf_sections(slice) {
        Some(s) => s,
        None => return None,
    };
    let relocations = match read_elf_relocations(slice) {
        Some(t) => t,
        None => return None,
    };
    let mut i: usize = 0;
    while i < symbols.len()
        invariant
            i <= symbols@.len(),
            forall|k: int| 0 <= k < i ==> (#[trigger] symbols@[k]).name is Some,
        decreases symbols@.len() - i,
    {
        if symbols[i].name.is_none() {
            assert(symbols_model(symbols@)[i as int].name is None);
            assert(!all_named(symbols_model(symbols@)));
            return None;
        }
        i = i + 1;
    }
    assert(all_named(symbols_model(symbols@)));
    Some(ObjectFile { bytes: slice_to_vec(slice), symbols, sections, relocations })
}

/// Reads the archive `buf` and the object of each of its members.
pub fn read_library(buf: &[u8]) -> (r: Option<Library>)
    ensures
        match r {
            Some(lib) => library_of(buf@) == Some(lib.model()),
            None => library_of(buf@) is None,
        },
{
    if !check_archive(buf) {
        return None;
    }
    let members = match read_archive(buf) {
        Some(m) => m,
        None => return None,
    };
    let mut objects: Vec<Option<ObjectFile>> = Vec::new();
    let mut i: usize = 0;
    while i < members.len()
        invariant
            i <= members@.len(),
            objects@.len() == i,
            forall|k: int|
                0 <= k < i ==> opt_object(#[trigger] objects@[k]) == member_object(buf@, members@[k].model()),
        decreases members@.len() - i,
    {
        let object = load_object(buf, &members[i]);
        objects.push(object);
        i = i + 1;
    }
    let lib = Library { members, objects };
    assert(lib.model().objects =~= lib.model().members.map_values(|m: MemberModel| member_object(buf@, m)));
    Some(lib)
}

/// The index of the last member named `name`.
pub open spec fn member_named(members: Seq<MemberModel>, name: Seq<char>) -> Option<int>
    decreases members.len(),
{
    if members.len() == 0 {
        None
    } else if members.last().name == name {
        Some(members.len() - 1)
    } else {
        member_named(members.drop_last(), name)
    }
}

/// The name of the (first) member to which the symbol index assigns `symbol`.
pub open spec fn member_of_symbol(members: Seq<MemberModel>, symbol: Seq<char>) -> Option<Seq<char>>
    decreases members.len(),
{
    if members.len() == 0 {
        None
    } else if members[0].symbols.contains(symbol) {
        Some(members[0].name)
    } else {
        member_of_symbol(members.drop_first(), symbol)
    }
}

pub proof fn lemma_member_named(members: Seq<MemberModel>, name: Seq<char>)
    ensures
        match member_named(members, name) {
            Some(i) => 0 <= i < members.len() && members[i].name == name && forall|j: int|
                i < j < members.len() ==> members[j].name != name,
            None => forall|j: int| 0 <= j < members.len() ==> members[j].name != name,
        },
    decreases members.len(),
{
    if members.len() > 0 {
        let rest = members.drop_last();
        lemma_member_named(rest, name);
        assert(forall|j: int| 0 <= j < rest.len() ==> rest[j] == members[j]);
        assert(members.last() == members[members.len() - 1]);
    }
}

/// The index of the last member named `name`.
pub fn find_member(members: &Vec<ArchiveMember>, name: &str) -> (r: Option<usize>)
    ensures
        match r {
            Some(i) => member_named(members_model(members@), name@) == Some(i as int),
            None => member_named(members_model(members@), name@) is None,
        },
{
    proof {
        lemma_member_named(members_model(members@), name@);
    }
    let ghost model = members_model(members@);
    let mut i = members.len();
    while i > 0
        invariant
            i <= members@.len(),
            model == members_model(members@),
            forall|j: int| i <= j < members@.len() ==> (#[trigger] members@[j]).name@ != name@,
        decreases i,
    {
        if str_eq(members[i - 1].name.as_str(), name) {
            assert(model[i - 1].name == name@);
            assert forall|j: int| i - 1 < j < model.len() implies model[j].name != name@ by {
                assert(model[j] == members@[j].model());
            }
            proof {
                lemma_member_named(model, name@);
                match member_named(model, name@) {
                    Some(k) => {
                        if k < i - 1 {
                            assert(model[i - 1].name != name@);
                        }
                        assert(k == i - 1);
                    },
                    None => {
                        assert(model[i - 1].name != name@);
                    },
                }
            }
            return Some(i - 1);
        }
        i = i - 1;
    }
    assert forall|j: int| 0 <= j < model.len() implies model[j].name != name@ by {
        lemma_member_named(model, name@);
        assert(model[j] == members@[j].model());
    }
    None
}

/// Whether `list` holds `s`.
fn contains_text(list: &Vec<String>, s: &str) -> (r: bool)
    ensures
        r == texts(list@).contains(s@),
{
    let mut i: usize = 0;
    while i < list.len()
        invariant
            i <= list@.len(),
            forall|k: int| 0 <= k < i ==> (#[trigger] list@[k])@ != s@,
        decreases list@.len() - i,
    {
        if str_eq(list[i].as_str(), s) {
            assert(texts(list@)[i as int] == s@);
            return true;
        }
        i = i + 1;
    }
    proof {
        if texts(list@).contains(s@) {
            let k = choose|k: int| 0 <= k < list@.len() && #[trigger] texts(list@)[k] == s@;
            assert(list@[k]@ == s@);
        }
    }
    false
}

/// The index of the (first) member to which the symbol index assigns `symbol`.
pub fn find_member_of_symbol(members: &Vec<ArchiveMember>, symbol: &str) -> (r: Option<usize>)
    ensures
        match member_of_symbol(members_model(members@), symbol@) {
            Some(name) => r matches Some(i) && i < members@.len() && members@[i as int].name@ == name,
            None => r is None,
        },
{
    let mut i: usize = 0;
    assert(members_model(members@).subrange(0, members@.len() as int) =~= members_model(members@));
    while i < members.len()
        invariant
            i <= members@.len(),
            member_of_symbol(members_model(members@), symbol@) == member_of_symbol(
                members_model(members@).subrange(i as int, members@.len() as int),
                symbol@,
            ),
        decreases members@.len() - i,
    {
        let ghost rest = members_model(members@).subrange(i as int, members@.len() as int);
        assert(rest.drop_first() =~= members_model(members@).subrange(i + 1, members@.len() as int));
        assert(rest[0] == members@[i as int].model());
        if contains_text(&members[i].symbols, symbol) {
            return Some(i);
        }
        i = i + 1;
    }
    assert(members_model(members@).subrange(i as int, members@.len() as int).len() == 0);
    None
}

} // verus!
