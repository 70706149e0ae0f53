use romhack::compiler::framework_map::{create, parse_hex_u32, try_parse, MAP_HEADER};
use romhack::compiler::static_lib::{LinkedSection, SectionKind};

const MAP: &str = ".text section layout\n  Starting        Virtual\n  address  Size   address\n  -----------------------\n  00000000 000124 80003100  1 .text \tmain.o \n  00000000 000044 80003244  4 draw__Q28JUtility6TColorCFPCci \tJUtility.a TColor.o \n  00000000 000010 80003300  4 init \tmain.o \n\n  00000000 000010 80009999  4 after \tx.o \n";

#[test]
fn symbols_of_a_map() {
    let table = try_parse(MAP.as_bytes()).expect("a readable map");
    assert_eq!(table.get("JUtility::TColor::draw(i8 const*, i32) const"), Some(0x8000_3244));
    assert_eq!(table.get("init"), Some(0x8000_3300));
    assert_eq!(table.get(".text"), None);
    assert_eq!(table.get("after"), None);
}

#[test]
fn map_that_is_not_utf8_is_refused() {
    assert!(try_parse(&[0xff, 0xfe]).is_none());
}

#[test]
fn map_line_with_bad_address_is_refused() {
    let map = "  00000000 000010 8000330G  4 init \tmain.o \n";
    assert!(try_parse(map.as_bytes()).is_none());
}

#[test]
fn hexadecimal_numbers() {
    assert_eq!(parse_hex_u32("80003244"), Some(0x8000_3244));
    assert_eq!(parse_hex_u32("+ff"), Some(255));
    assert_eq!(parse_hex_u32("FFFFFFFF"), Some(u32::MAX));
    assert_eq!(parse_hex_u32("100000000"), None);
    assert_eq!(parse_hex_u32(""), None);
    assert_eq!(parse_hex_u32("+"), None);
    assert_eq!(parse_hex_u32("-1"), None);
}

fn section(name: &str, kind: SectionKind, address: u32, len: u32, sym_offset: u32) -> LinkedSection {
    LinkedSection {
        address,
        len,
        member_name: "hack.o".to_string(),
        section_name: name.to_string(),
        sym_offset,
        kind,
    }
}

#[test]
fn map_of_sections() {
    let sections = vec![
        section(".text.init", SectionKind::TextSection, 0x8040_1000, 0x40, 0),
        section(".data", SectionKind::DataSection, 0x8040_2000, 0x10, 4),
        section(
            ".text._ZN4hack4draw17h0123456789abcdefE",
            SectionKind::TextSection,
            0x8040_1040,
            0x20,
            0,
        ),
    ];
    let tail = ".init section layout\n  00000000 000010 80003100  4 .init \tos.a\n";
    let text = create(&sections, tail).unwrap();
    let expected = format!(
        "{}  00000000 000040 80401000  4 init \thack.o\n  00000000 00000c 80402004  4 .data \thack.o\n  00000000 000020 80401040  4 hack::draw \thack.o\n{}",
        MAP_HEADER, tail
    );
    assert_eq!(text, expected);
}

#[test]
fn offset_past_the_size_is_refused() {
    let sections = vec![section(".data", SectionKind::DataSection, 0, 4, 8)];
    assert!(create(&sections, "").is_none());
}
