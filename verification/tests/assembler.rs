use romhack::compiler::assembler::Assembler;
use romhack::compiler::symbols::SymbolTable;

fn table() -> SymbolTable {
    let mut t = SymbolTable::new();
    t.insert("init".to_string(), 0x8040_1000);
    t.insert("draw".to_string(), 0x8040_2000);
    t
}

#[test]
fn labels_place_instructions() {
    let mut assembler = Assembler::new(table());
    let lines = ["0x80001000:", "nop ; a comment", "  u32 0x12345678  ", "", "; only a comment"];
    let out = assembler.try_assemble_all_lines(&lines).unwrap();
    assert_eq!(out.len(), 2);
    assert_eq!((out[0].address, out[0].data), (0x8000_1000, 0x6000_0000));
    assert_eq!((out[1].address, out[1].data), (0x8000_1004, 0x1234_5678));
}

#[test]
fn branches_are_relative_and_link_with_bl() {
    let mut assembler = Assembler::new(table());
    let lines = ["0x80401000:", "b 0x80401010", "bl init", "b draw"];
    let out = assembler.assemble_all_lines(&lines);
    assert_eq!(out[0].data, (18 << 26) | 0x10);
    assert_eq!(out[1].data, (18 << 26) | (0x3FF_FFFC & 0u32.wrapping_sub(4)) | 1);
    assert_eq!(out[2].data, (18 << 26) | 0xFF8);
    assert_eq!(out[2].address, 0x8040_1008);
}

#[test]
fn backward_branch_wraps() {
    let mut assembler = Assembler::new(SymbolTable::new());
    let out = assembler.try_assemble_all_lines(&["0x100:", "b 0xF0"]).unwrap();
    assert_eq!(out[0].data, (18 << 26) | (0x3FF_FFFC & 0xFFFF_FFF0));
}

#[test]
fn integer_literals_take_rust_forms() {
    let mut assembler = Assembler::new(SymbolTable::new());
    let out = assembler.try_assemble_all_lines(&["u32 0b101", "u32 0o17", "u32 1_000", "u32 0x1_0000_0001"]).unwrap();
    assert_eq!(out.iter().map(|i| i.data).collect::<Vec<_>>(), vec![5, 15, 1000, 1]);
}

#[test]
fn unknown_instruction_is_refused() {
    let mut assembler = Assembler::new(table());
    assert!(assembler.try_assemble_all_lines(&["add r3, r3, r4"]).is_none());
}

#[test]
fn unknown_symbol_is_refused() {
    let mut assembler = Assembler::new(table());
    assert!(assembler.try_assemble_all_lines(&["bl missing"]).is_none());
}

#[test]
fn malformed_label_is_refused() {
    let mut assembler = Assembler::new(table());
    assert!(assembler.try_assemble_all_lines(&["zz:"]).is_none());
}

#[test]
fn symbol_table_later_entry_wins() {
    let mut t = SymbolTable::new();
    t.insert("a".to_string(), 1);
    t.insert("b".to_string(), 2);
    t.insert("a".to_string(), 3);
    assert_eq!(t.get("a"), Some(3));
    assert_eq!(t.get("b"), Some(2));
    assert_eq!(t.get("c"), None);
}

#[test]
fn assembling_in_two_calls_continues_the_address() {
    let lines = ["0x80001000:", "nop", "u32 7", "b init", "nop"];
    let mut whole = Assembler::new(table());
    let all = whole.try_assemble_all_lines(&lines).unwrap();
    let mut split = Assembler::new(table());
    let mut parts = split.try_assemble_all_lines(&lines[..2]).unwrap();
    parts.extend(split.try_assemble_all_lines(&lines[2..]).unwrap());
    let as_pairs = |v: &[romhack::compiler::assembler::Instruction]| -> Vec<(u32, u32)> {
        v.iter().map(|i| (i.address, i.data)).collect()
    };
    assert_eq!(as_pairs(&all), as_pairs(&parts));
    assert_eq!(as_pairs(&all)[3], (0x8000_100C, 0x6000_0000));
}
