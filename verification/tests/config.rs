use romhack::compiler::config::Link;

fn link(base: &str) -> Link {
    Link { entries: vec!["init".to_string()], base: base.to_string() }
}

#[test]
fn base_address_reads_rust_literals() {
    assert_eq!(link("0x8040_1000").base_address(), Some(0x8040_1000));
    assert_eq!(link("2151682048").base_address(), Some(0x8040_1000));
    assert_eq!(link("0x8040_1000u32").base_address(), Some(0x8040_1000));
}

#[test]
fn base_address_keeps_the_low_32_bits() {
    assert_eq!(link("0x1_8040_1000").base_address(), Some(0x8040_1000));
}

#[test]
fn base_address_that_is_no_literal_is_refused() {
    assert_eq!(link("somewhere").base_address(), None);
    assert_eq!(link("").base_address(), None);
}

#[test]
fn base_address_reads_uppercase_hex_and_leading_zeros() {
    assert_eq!(link("0x8040AB00").base_address(), Some(0x8040_AB00));
    assert_eq!(link("007").base_address(), Some(7));
}
