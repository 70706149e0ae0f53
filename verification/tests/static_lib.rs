use romhack::compiler::static_lib::archive::{
    read_library, ArchiveMember, ElfReloc, ElfSection, ElfSymbol, Library, ObjectFile, RelocTable,
};
use romhack::compiler::static_lib::{try_link, SectionKind};

fn sym(name: &str, info: u8, section: usize, value: u64) -> ElfSymbol {
    ElfSymbol { name: Some(name.to_string()), info, section, value }
}

fn sec(name: &str, kind: u32, flags: u64, offset: u64, size: u64, align: u64, info: u32) -> ElfSection {
    ElfSection { name: Some(name.to_string()), kind, flags, offset, size, align, info }
}

fn member(name: &str, symbols: &[&str]) -> ArchiveMember {
    ArchiveMember {
        name: name.to_string(),
        offset: 0,
        size: 0,
        symbols: symbols.iter().map(|s| s.to_string()).collect(),
    }
}

fn library() -> Library {
    let mut a_bytes = vec![0u8; 0x50];
    a_bytes[0x40..0x48].copy_from_slice(&[0x48, 0, 0, 1, 0x48, 0, 0, 0]);
    a_bytes[0x48..0x4c].copy_from_slice(&[0x4e, 0x80, 0, 0x20]);
    let a = ObjectFile {
        bytes: a_bytes,
        symbols: vec![sym("", 0, 0, 0), sym("init", 0x12, 1, 0), sym("helper", 0x12, 2, 0), sym("ext", 0x10, 0, 0)],
        sections: vec![
            sec("", 0, 0, 0, 0, 0, 0),
            sec(".text.init", 1, 6, 0x40, 8, 4, 0),
            sec(".text.helper", 1, 6, 0x48, 4, 4, 0),
            sec(".rela.text.init", 4, 0, 0, 0, 4, 1),
        ],
        relocations: vec![RelocTable {
            header: 3,
            relocs: vec![
                ElfReloc { offset: 4, addend: Some(0), symbol: 2, kind: 10 },
                ElfReloc { offset: 0, addend: Some(8), symbol: 3, kind: 1 },
            ],
        }],
    };
    let mut b_bytes = vec![0u8; 0x50];
    for i in 0..16 {
        b_bytes[0x40 + i] = i as u8 + 1;
    }
    let b = ObjectFile {
        bytes: b_bytes,
        symbols: vec![sym("", 0, 0, 0), sym("ext", 0x11, 1, 4)],
        sections: vec![sec("", 0, 0, 0, 0, 0, 0), sec(".data.ext", 1, 3, 0x40, 16, 8, 0)],
        relocations: vec![],
    };
    Library {
        members: vec![member("a.o", &["init", "helper"]), member("b.o", &["ext"])],
        objects: vec![Some(a), Some(b)],
    }
}

#[test]
fn link_lays_out_relocates_and_names() {
    let lib = library();
    let linked = try_link(&lib, 0x8040_1000, vec!["init"]).expect("the link succeeds");
    let text = &linked.dol.text_sections[0];
    assert_eq!(text.address, 0x8040_1000);
    assert_eq!(text.data, vec![0x80, 0x40, 0x10, 0x18, 0x48, 0, 0, 4, 0x4e, 0x80, 0, 0x20]);
    let data = &linked.dol.data_sections[0];
    assert_eq!(data.address, 0x8040_1010);
    let mut expected_data = vec![0u8; 4];
    expected_data.extend(1..=16u8);
    assert_eq!(data.data, expected_data);
    assert_eq!(linked.symbol_table.get("init"), Some(0x8040_1000));
    assert_eq!(linked.symbol_table.get("helper"), Some(0x8040_1008));
    assert_eq!(linked.symbol_table.get("ext"), None);
    let names: Vec<(&str, u32, u32, SectionKind)> = linked
        .sections
        .iter()
        .map(|s| (s.section_name.as_str(), s.address, s.len, s.kind))
        .collect();
    assert_eq!(
        names,
        vec![
            (".text.init", 0x8040_1000, 8, SectionKind::TextSection),
            (".text.helper", 0x8040_1008, 4, SectionKind::TextSection),
            (".data.ext", 0x8040_1010, 16, SectionKind::DataSection),
        ]
    );
    assert_eq!(linked.sections[2].member_name, "b.o");
}

#[test]
fn unresolved_entry_is_refused() {
    assert!(try_link(&library(), 0x8040_1000, vec!["missing"]).is_none());
}

#[test]
fn unknown_relocation_type_is_refused() {
    let mut lib = library();
    if let Some(a) = lib.objects[0].as_mut() {
        a.relocations[0].relocs[0].kind = 99;
    }
    assert!(try_link(&lib, 0x8040_1000, vec!["init"]).is_none());
}

#[test]
fn zero_alignment_is_refused() {
    let mut lib = library();
    if let Some(a) = lib.objects[0].as_mut() {
        a.sections[2].align = 0;
    }
    assert!(try_link(&lib, 0x8040_1000, vec!["init"]).is_none());
}

#[test]
fn unreadable_member_is_refused() {
    let mut lib = library();
    lib.objects[1] = None;
    assert!(try_link(&lib, 0x8040_1000, vec!["init"]).is_none());
}

#[test]
fn bytes_that_are_no_archive_are_refused() {
    assert!(read_library(b"not an archive at all").is_none());
}
