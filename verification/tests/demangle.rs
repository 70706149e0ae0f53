use romhack::compiler::demangle::{demangle, try_demangle};

#[test]
fn const_member_function() {
    assert_eq!(
        demangle("draw__Q28JUtility6TColorCFPCci").unwrap(),
        "JUtility::TColor::draw(i8 const*, i32) const"
    );
}

#[test]
fn name_without_double_underscore_is_kept() {
    assert_eq!(demangle("main").unwrap(), "main");
    assert_eq!(demangle("__start").unwrap(), "__start");
}

#[test]
fn constructor_and_destructor() {
    assert_eq!(demangle("__ct__10JKRDvdFileFv").unwrap(), "JKRDvdFile()");
    assert_eq!(demangle("__dt__10JKRDvdFileFv").unwrap(), "~JKRDvdFile()");
}

#[test]
fn free_function_with_parameters() {
    assert_eq!(demangle("cM_rndF__Ff").unwrap(), "cM_rndF(f32)");
}

#[test]
fn truncated_name_aborts() {
    assert!(try_demangle("foo__9ABC").is_none());
}
