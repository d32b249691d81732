use binscope::elfdyn::{
    exported_names, target_link_info, undefined_names, DynSymRecord,
};
use binscope::loader::parse_image;
use binscope::AnalysisError;

fn rec(name: &str, section_index: usize) -> DynSymRecord {
    DynSymRecord { name: name.to_string(), section_index }
}

#[test]
fn exported_names_keep_defined_nonempty_entries_once() {
    let records = vec![
        rec("", 1),
        rec("foo", 1),
        rec("und", 0),
        rec("foo", 2),
        rec("bar", 3),
    ];
    let exports = exported_names(&records);
    assert_eq!(exports, vec!["foo".to_string(), "bar".to_string()]);
}

#[test]
fn undefined_names_keep_order_and_duplicates() {
    let records = vec![
        rec("a", 0),
        rec("def", 5),
        rec("b", 0),
        rec("", 0),
        rec("a", 0),
    ];
    let undefined = undefined_names(&records);
    assert_eq!(
        undefined,
        vec!["a".to_string(), "b".to_string(), "a".to_string()]
    );
}

/// A minimal 64-byte little-endian ELF64 executable header: no program
/// headers, no sections, entry point 0x1000.
fn minimal_elf() -> Vec<u8> {
    let mut b = vec![0u8; 64];
    b[0..4].copy_from_slice(&[0x7f, b'E', b'L', b'F']);
    b[4] = 2; // 64-bit
    b[5] = 1; // little endian
    b[6] = 1; // version
    b[16..18].copy_from_slice(&2u16.to_le_bytes()); // ET_EXEC
    b[18..20].copy_from_slice(&0x3eu16.to_le_bytes()); // x86-64
    b[20..24].copy_from_slice(&1u32.to_le_bytes()); // version
    b[24..32].copy_from_slice(&0x1000u64.to_le_bytes()); // entry
    b[52..54].copy_from_slice(&64u16.to_le_bytes()); // ehsize
    b
}

#[test]
fn minimal_elf_declares_no_libraries_and_no_symbols() {
    let bytes = minimal_elf();
    let (libs, undefined) = target_link_info(&bytes).expect("parse");
    assert!(libs.is_empty());
    assert!(undefined.is_empty());
}

#[test]
fn garbage_bytes_are_a_format_error() {
    let bytes = vec![0xde, 0xad, 0xbe, 0xef, 1, 2, 3, 4];
    assert!(matches!(target_link_info(&bytes), Err(AnalysisError::FormatError)));
    assert!(matches!(parse_image(&bytes), Err(AnalysisError::FormatError)));
}

#[test]
fn minimal_elf_parses_as_image_with_entry() {
    let bytes = minimal_elf();
    let image = parse_image(&bytes).expect("parse");
    assert_eq!(image.entry, 0x1000);
    assert!(image.sections.is_empty());
}
