use romhack::compiler::static_lib::archive::read_library;
use romhack::compiler::static_lib::{try_link, SectionKind};

struct Section {
    name: &'static str,
    kind: u32,
    flags: u32,
    data: Vec<u8>,
    link: u32,
    info: u32,
    align: u32,
    entsize: u32,
}

fn be32(out: &mut Vec<u8>, v: u32) {
    out.extend_from_slice(&v.to_be_bytes());
}

fn be16(out: &mut Vec<u8>, v: u16) {
    out.extend_from_slice(&v.to_be_bytes());
}

fn pad_to(out: &mut Vec<u8>, align: usize) {
    while out.len() % align != 0 {
        out.push(0);
    }
}

/// A big-endian 32-bit relocatable ELF file with the given sections (after
/// the null section), followed by a section-name table.
fn elf(sections: Vec<Section>) -> Vec<u8> {
    let mut shstrtab = vec![0u8];
    let mut names = Vec::new();
    for s in &sections {
        names.push(shstrtab.len() as u32);
        shstrtab.extend_from_slice(s.name.as_bytes());
        shstrtab.push(0);
    }
    let shstrtab_name = shstrtab.len() as u32;
    shstrtab.extend_from_slice(b".shstrtab\0");

    let mut out = vec![0u8; 52];
    let mut offsets = Vec::new();
    for s in &sections {
        pad_to(&mut out, s.align.max(1) as usize);
        offsets.push(out.len() as u32);
        out.extend_from_slice(&s.data);
    }
    let shstrtab_offset = out.len() as u32;
    out.extend_from_slice(&shstrtab);
    pad_to(&mut out, 4);
    let shoff = out.len() as u32;
    let shnum = sections.len() as u16 + 2;

    out.extend_from_slice(&[0u8; 40]);
    for (i, s) in sections.iter().enumerate() {
        for v in [names[i], s.kind, s.flags, 0, offsets[i], s.data.len() as u32, s.link, s.info, s.align, s.entsize] {
            be32(&mut out, v);
        }
    }
    for v in [shstrtab_name, 3, 0, 0, shstrtab_offset, shstrtab.len() as u32, 0, 0, 1, 0] {
        be32(&mut out, v);
    }

    let mut header = vec![0x7f, b'E', b'L', b'F', 1, 2, 1, 0, 0, 0, 0, 0, 0, 0, 0, 0];
    be16(&mut header, 1);
    be16(&mut header, 20);
    be32(&mut header, 1);
    be32(&mut header, 0);
    be32(&mut header, 0);
    be32(&mut header, shoff);
    be32(&mut header, 0);
    be16(&mut header, 52);
    be16(&mut header, 32);
    be16(&mut header, 0);
    be16(&mut header, 40);
    be16(&mut header, shnum);
    be16(&mut header, shnum - 1);
    out[..52].copy_from_slice(&header);
    out
}

/// A symbol table and its string table, from (name, info, section, value).
fn symbols(entries: &[(&str, u8, u16, u32)]) -> (Vec<u8>, Vec<u8>) {
    let mut table = vec![0u8; 16];
    let mut strings = vec![0u8];
    for (name, info, section, value) in entries {
        be32(&mut table, strings.len() as u32);
        strings.extend_from_slice(name.as_bytes());
        strings.push(0);
        be32(&mut table, *value);
        be32(&mut table, 0);
        table.push(*info);
        table.push(0);
        be16(&mut table, *section);
    }
    (table, strings)
}

fn rela(entries: &[(u32, u32, u32, i32)]) -> Vec<u8> {
    let mut out = Vec::new();
    for (offset, symbol, kind, addend) in entries {
        be32(&mut out, *offset);
        be32(&mut out, (symbol << 8) | kind);
        be32(&mut out, *addend as u32);
    }
    out
}

fn object_a() -> Vec<u8> {
    let (symtab, strtab) = symbols(&[("init", 0x12, 1, 0), ("helper", 0x12, 2, 0), ("ext", 0x10, 0, 0)]);
    elf(vec![
        Section { name: ".text.init", kind: 1, flags: 6, data: vec![0x48, 0, 0, 1, 0x48, 0, 0, 0], link: 0, info: 0, align: 4, entsize: 0 },
        Section { name: ".text.helper", kind: 1, flags: 6, data: vec![0x4e, 0x80, 0, 0x20], link: 0, info: 0, align: 4, entsize: 0 },
        Section {
            name: ".rela.text.init",
            kind: 4,
            flags: 0,
            data: rela(&[(4, 2, 10, 0), (0, 3, 1, 8)]),
            link: 4,
            info: 1,
            align: 4,
            entsize: 12,
        },
        Section { name: ".symtab", kind: 2, flags: 0, data: symtab, link: 5, info: 1, align: 4, entsize: 16 },
        Section { name: ".strtab", kind: 3, flags: 0, data: strtab, link: 0, info: 0, align: 1, entsize: 0 },
    ])
}

fn object_b() -> Vec<u8> {
    let (symtab, strtab) = symbols(&[("ext", 0x11, 1, 4)]);
    elf(vec![
        Section { name: ".data.ext", kind: 1, flags: 3, data: (1..=16u8).collect(), link: 0, info: 0, align: 8, entsize: 0 },
        Section { name: ".symtab", kind: 2, flags: 0, data: symtab, link: 3, info: 1, align: 4, entsize: 16 },
        Section { name: ".strtab", kind: 3, flags: 0, data: strtab, link: 0, info: 0, align: 1, entsize: 0 },
    ])
}

fn member_header(out: &mut Vec<u8>, name: &str, size: usize) {
    let field = |s: &str, width: usize| format!("{:<width$}", s, width = width);
    out.extend_from_slice(field(name, 16).as_bytes());
    out.extend_from_slice(field("0", 12).as_bytes());
    out.extend_from_slice(field("0", 6).as_bytes());
    out.extend_from_slice(field("0", 6).as_bytes());
    out.extend_from_slice(field("644", 8).as_bytes());
    out.extend_from_slice(field(&size.to_string(), 10).as_bytes());
    out.extend_from_slice(b"`\n");
}

/// A System V `ar` archive of the two objects, with a symbol index that
/// assigns `init` and `helper` to `a.o` and `ext` to `b.o`.
fn archive() -> Vec<u8> {
    let a = object_a();
    let b = object_b();
    let names: &[(&str, usize)] = &[("init", 0), ("helper", 0), ("ext", 1)];
    let mut index_strings = Vec::new();
    for (name, _) in names {
        index_strings.extend_from_slice(name.as_bytes());
        index_strings.push(0);
    }
    let index_len = 4 + 4 * names.len() + index_strings.len();
    let index_end = 8 + 60 + index_len + index_len % 2;
    let a_at = index_end;
    let b_at = a_at + 60 + a.len() + a.len() % 2;

    let mut out = b"!<arch>\n".to_vec();
    member_header(&mut out, "/", index_len);
    be32(&mut out, names.len() as u32);
    for (_, member) in names {
        be32(&mut out, if *member == 0 { a_at } else { b_at } as u32);
    }
    out.extend_from_slice(&index_strings);
    pad_to(&mut out, 2);
    assert_eq!(out.len(), a_at);
    member_header(&mut out, "a.o/", a.len());
    out.extend_from_slice(&a);
    pad_to(&mut out, 2);
    assert_eq!(out.len(), b_at);
    member_header(&mut out, "b.o/", b.len());
    out.extend_from_slice(&b);
    out
}

#[test]
fn archive_members_and_objects_are_read() {
    let buf = archive();
    let lib = read_library(&buf).expect("the archive is read");
    let names: Vec<&str> = lib.members.iter().map(|m| m.name.as_str()).collect();
    assert_eq!(names, vec!["a.o", "b.o"]);
    let mut a_symbols: Vec<&str> = lib.members[0].symbols.iter().map(|s| s.as_str()).collect();
    a_symbols.sort();
    assert_eq!(a_symbols, vec!["helper", "init"]);
    assert_eq!(lib.members[1].symbols, vec!["ext".to_string()]);

    let a = lib.objects[0].as_ref().expect("a.o is an object");
    assert_eq!(a.bytes, object_a());
    let symbol_names: Vec<&str> = a.symbols.iter().map(|s| s.name.as_deref().unwrap()).collect();
    assert_eq!(symbol_names, vec!["", "init", "helper", "ext"]);
    assert_eq!((a.symbols[3].info, a.symbols[3].section), (0x10, 0));
    let section_names: Vec<&str> = a.sections.iter().map(|s| s.name.as_deref().unwrap()).collect();
    assert_eq!(
        section_names,
        vec!["", ".text.init", ".text.helper", ".rela.text.init", ".symtab", ".strtab", ".shstrtab"]
    );
    assert_eq!((a.sections[1].size, a.sections[1].align, a.sections[1].flags), (8, 4, 6));
    assert_eq!(a.relocations.len(), 1);
    assert_eq!(a.relocations[0].header, 3);
    let relocs: Vec<(u64, Option<i64>, usize, u32)> =
        a.relocations[0].relocs.iter().map(|r| (r.offset, r.addend, r.symbol, r.kind)).collect();
    assert_eq!(relocs, vec![(4, Some(0), 2, 10), (0, Some(8), 3, 1)]);

    let b = lib.objects[1].as_ref().expect("b.o is an object");
    assert_eq!(b.symbols[1].value, 4);
    assert_eq!(b.sections[1].name.as_deref(), Some(".data.ext"));
}

#[test]
fn archive_links_like_its_members_say() {
    let buf = archive();
    let lib = read_library(&buf).expect("the archive is read");
    let linked = try_link(&lib, 0x8040_1000, vec!["init"]).expect("the link succeeds");
    assert_eq!(linked.dol.text_sections[0].address, 0x8040_1000);
    assert_eq!(linked.dol.text_sections[0].data, vec![0x80, 0x40, 0x10, 0x18, 0x48, 0, 0, 4, 0x4e, 0x80, 0, 0x20]);
    let mut expected_data = vec![0u8; 4];
    expected_data.extend(1..=16u8);
    assert_eq!(linked.dol.data_sections[0].data, expected_data);
    let kinds: Vec<(&str, u32, SectionKind)> =
        linked.sections.iter().map(|s| (s.section_name.as_str(), s.address, s.kind)).collect();
    assert_eq!(
        kinds,
        vec![
            (".text.init", 0x8040_1000, SectionKind::TextSection),
            (".text.helper", 0x8040_1008, SectionKind::TextSection),
            (".data.ext", 0x8040_1010, SectionKind::DataSection),
        ]
    );
}

#[test]
fn member_that_is_no_object_is_left_unread() {
    let mut buf = archive();
    let a_data = buf.windows(4).position(|w| w == b"\x7fELF").expect("a.o is in the archive");
    buf[a_data] = 0;
    let lib = read_library(&buf).expect("the archive is still read");
    assert!(lib.objects[0].is_none());
    assert!(lib.objects[1].is_some());
    assert!(try_link(&lib, 0x8040_1000, vec!["init"]).is_none());
}

#[test]
fn symbol_index_naming_no_member_is_refused() {
    let mut buf = archive();
    let first_entry = 8 + 60 + 4;
    let at = u32::from_be_bytes([buf[first_entry], buf[first_entry + 1], buf[first_entry + 2], buf[first_entry + 3]]);
    buf[first_entry..first_entry + 4].copy_from_slice(&(at + 2).to_be_bytes());
    assert!(read_library(&buf).is_none());
}

#[test]
fn bsd_member_names_are_refused() {
    let mut buf = archive();
    let a_header = buf.windows(4).position(|w| w == b"a.o/").expect("a.o's header");
    buf[a_header..a_header + 4].copy_from_slice(b"#1/3");
    assert!(read_library(&buf).is_none());
}

#[test]
fn object_with_program_headers_is_left_unread() {
    let mut buf = archive();
    let a_data = buf.windows(4).position(|w| w == b"\x7fELF").expect("a.o is in the archive");
    buf[a_data + 45] = 1;
    let lib = read_library(&buf).expect("the archive is still read");
    assert!(lib.objects[0].is_none());
    assert!(lib.objects[1].is_some());
}
