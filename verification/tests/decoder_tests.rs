//! Decoder scenarios: init-frame validation, and a whole decode against an
//! image assembled in memory, with hand-laid debug information.

use cdefmt_decoder::decoder::validate_init;
use cdefmt_decoder::decoder::Decoder;
use cdefmt_decoder::metadata::Level;
use cdefmt_decoder::var::Var;
use cdefmt_decoder::DecodeError;
use cdefmt_decoder::Endian;

#[test]
fn init_frame_with_matching_build_id_passes() {
    let args = vec![Var::Array(vec![
        Var::U8(0xde),
        Var::U8(0xad),
        Var::U8(0xbe),
        Var::U8(0xef),
    ])];
    let build_id = vec![0xdeu8, 0xad, 0xbe, 0xef];
    assert!(validate_init(&args, &build_id).is_ok());
}

#[test]
fn init_frame_with_one_changed_byte_fails() {
    let args = vec![Var::Array(vec![
        Var::U8(0xde),
        Var::U8(0xad),
        Var::U8(0xbe),
        Var::U8(0xef),
    ])];
    let build_id = vec![0xdeu8, 0xad, 0xbe, 0xee];
    match validate_init(&args, &build_id) {
        Err(DecodeError::Custom(m)) => assert_eq!(m, "Build ID mismatch!"),
        other => panic!("expected the mismatch error, got {:?}", other),
    }
}

#[test]
fn init_frame_without_arguments_fails() {
    let args: Vec<Var> = vec![];
    assert!(matches!(validate_init(&args, &vec![1u8]), Err(DecodeError::Custom(_))));
}

#[test]
fn init_frame_with_non_byte_element_fails() {
    let args = vec![Var::Array(vec![Var::U16(1)])];
    assert!(matches!(validate_init(&args, &vec![1u8]), Err(DecodeError::Custom(_))));
}

fn u32le(v: u32) -> [u8; 4] {
    [v as u8, (v >> 8) as u8, (v >> 16) as u8, (v >> 24) as u8]
}

fn uleb(out: &mut Vec<u8>, v: u64) {
    // All values used here fit one byte.
    assert!(v < 0x80);
    out.push(v as u8);
}

/// One compilation unit with a compile-unit entry named `main.c` (carrying
/// a statement-list reference, as real compiler output does), the
/// structure `cdefmt_log_args_t1` of a u64 identifier and a u32 argument,
/// and the two base types.
fn debug_sections() -> (Vec<u8>, Vec<u8>, Vec<u8>) {
    let mut abbrev = Vec::new();
    // 1: compile_unit, has children, name: string, stmt_list: sec_offset.
    for v in [1u64, 0x11, 1, 0x03, 0x08, 0x10, 0x17, 0, 0] {
        uleb(&mut abbrev, v);
    }
    // 2: structure_type, has children, name: string, byte_size: data1.
    for v in [2u64, 0x13, 1, 0x03, 0x08, 0x0B, 0x0B, 0, 0] {
        uleb(&mut abbrev, v);
    }
    // 3: member, no children, name: string, type: ref4,
    //    data_member_location: data1.
    for v in [3u64, 0x0D, 0, 0x03, 0x08, 0x49, 0x13, 0x38, 0x0B, 0, 0] {
        uleb(&mut abbrev, v);
    }
    // 4: base_type, no children, byte_size: data1, encoding: data1.
    for v in [4u64, 0x24, 0, 0x0B, 0x0B, 0x3E, 0x0B, 0, 0] {
        uleb(&mut abbrev, v);
    }
    abbrev.push(0);

    // The unit: offsets are relative to the unit header start.
    let mut dies = Vec::new();
    // 11: compile unit, with a line-program reference at offset 0.
    dies.push(1);
    dies.extend_from_slice(b"main.c\0");
    dies.extend_from_slice(&u32le(0));
    // 23: the argument structure, size 12.
    dies.push(2);
    dies.extend_from_slice(b"cdefmt_log_args_t1\0");
    dies.push(12);
    // 44: member log_id: u64 at 0.
    dies.push(3);
    dies.extend_from_slice(b"log_id\0");
    dies.extend_from_slice(&u32le(68));
    dies.push(0);
    // 57: member arg: u32 at 8.
    dies.push(3);
    dies.extend_from_slice(b"arg\0");
    dies.extend_from_slice(&u32le(71));
    dies.push(8);
    // 67: end of the structure's children.
    dies.push(0);
    // 68: base type u64.
    dies.push(4);
    dies.push(8);
    dies.push(7);
    // 71: base type u32.
    dies.push(4);
    dies.push(4);
    dies.push(7);
    // 74: end of the unit's children.
    dies.push(0);

    let mut info = Vec::new();
    let unit_length = (7 + dies.len()) as u32;
    info.extend_from_slice(&u32le(unit_length));
    info.extend_from_slice(&[4, 0]);  // version 4
    info.extend_from_slice(&u32le(0));  // abbrev offset
    info.push(8);  // address size
    info.extend_from_slice(&dies);

    // A minimal line-program header, which parsing the unit reads eagerly.
    let mut line = Vec::new();
    line.extend_from_slice(&u32le(14));  // unit length
    line.extend_from_slice(&[4, 0]);  // version 4
    line.extend_from_slice(&u32le(8));  // header length
    line.push(1);  // minimum instruction length
    line.push(1);  // maximum operations per instruction
    line.push(1);  // default is_stmt
    line.push(0);  // line base
    line.push(1);  // line range
    line.push(1);  // opcode base
    line.push(0);  // end of include directories
    line.push(0);  // end of file names
    (info, abbrev, line)
}

fn metadata_record() -> Vec<u8> {
    let file = b"main.c";
    let fmt = b"arg = {}";
    let name = b"arg";
    let mut out = Vec::new();
    out.extend_from_slice(&u32le(1));
    out.extend_from_slice(&u32le(1));  // counter
    out.extend_from_slice(&u32le(7));  // line
    out.extend_from_slice(&u32le(file.len() as u32 + 1));
    out.extend_from_slice(&u32le(fmt.len() as u32 + 1));
    out.extend_from_slice(&u32le(1));  // one name
    out.push(2);  // Info
    out.extend_from_slice(file);
    out.push(0);
    out.extend_from_slice(fmt);
    out.push(0);
    out.extend_from_slice(&u32le(name.len() as u32 + 1));
    out.extend_from_slice(name);
    out.push(0);
    out
}

/// Assembles a little image: the metadata section (with the record at
/// offset 4), a build-id note, a log-site symbol, and the debug sections.
fn build_image() -> Vec<u8> {
    let mut obj = object::write::Object::new(
        object::BinaryFormat::Elf,
        object::Architecture::X86_64,
        object::Endianness::Little,
    );

    let mut cdefmt = vec![0u8; 4];
    cdefmt.extend_from_slice(&metadata_record());
    let sec = obj.add_section(vec![], b".cdefmt".to_vec(), object::SectionKind::ReadOnlyData);
    obj.set_section_data(sec, cdefmt, 1);

    let (info, abbrev, line) = debug_sections();
    let s = obj.add_section(vec![], b".debug_info".to_vec(), object::SectionKind::Debug);
    obj.set_section_data(s, info, 1);
    let s = obj.add_section(vec![], b".debug_abbrev".to_vec(), object::SectionKind::Debug);
    obj.set_section_data(s, abbrev, 1);
    let s = obj.add_section(vec![], b".debug_line".to_vec(), object::SectionKind::Debug);
    obj.set_section_data(s, line, 1);

    // A GNU build-id note: de ad be ef.
    let mut note = Vec::new();
    note.extend_from_slice(&u32le(4));
    note.extend_from_slice(&u32le(4));
    note.extend_from_slice(&u32le(3));
    note.extend_from_slice(b"GNU\0");
    note.extend_from_slice(&[0xde, 0xad, 0xbe, 0xef]);
    let s = obj.add_section(vec![], b".note.gnu.build-id".to_vec(), object::SectionKind::Note);
    obj.set_section_data(s, note, 4);

    obj.add_symbol(object::write::Symbol {
        name: b"cdefmt_log_metadata_1".to_vec(),
        value: 4,
        size: 0,
        kind: object::SymbolKind::Data,
        scope: object::SymbolScope::Linkage,
        weak: false,
        section: object::write::SymbolSection::Section(sec),
        flags: object::SymbolFlags::None,
    });

    obj.write().unwrap()
}

#[test]
fn whole_frame_decodes_against_an_assembled_image() {
    let image = build_image();
    let mut decoder = Decoder::new(&image).unwrap();
    assert_eq!(decoder.get_endianness(), Endian::Little);

    // Identifier 4 (eight address bytes), then the payload: u32 argument
    // 42 at offset 8 of the argument structure.
    let mut frame = vec![4u8, 0, 0, 0, 0, 0, 0, 0];
    frame.extend_from_slice(&u32le(42));
    let log = decoder.decode_log(&frame).unwrap();
    assert_eq!(log.get_level(), Level::Info);
    assert_eq!(log.get_file(), &b"main.c".to_vec());
    assert_eq!(log.get_line(), 7);
    assert_eq!(log.get_args().len(), 1);
    assert!(matches!(log.get_args()[0], Var::U32(42)));
    assert_eq!(log.to_string(), "arg = 42");

    // A second decode of the same frame is structurally equal.
    let log2 = decoder.decode_log(&frame).unwrap();
    assert_eq!(log2.to_string(), "arg = 42");
    assert_eq!(log2.get_args().len(), 1);
}

#[test]
fn precache_walks_the_log_site_symbols() {
    let image = build_image();
    let mut decoder = Decoder::new(&image).unwrap();
    let count = decoder.precache_log_metadata().unwrap();
    assert_eq!(count, 1);
    let mut frame = vec![4u8, 0, 0, 0, 0, 0, 0, 0];
    frame.extend_from_slice(&u32le(42));
    let log = decoder.decode_log(&frame).unwrap();
    assert_eq!(log.to_string(), "arg = 42");
}

#[test]
fn unknown_identifier_fails_without_poisoning_the_decoder() {
    let image = build_image();
    let mut decoder = Decoder::new(&image).unwrap();
    let bad = vec![0xEEu8, 0xFF, 0, 0, 0, 0, 0, 0];
    assert!(decoder.decode_log(&bad).is_err());
    let mut frame = vec![4u8, 0, 0, 0, 0, 0, 0, 0];
    frame.extend_from_slice(&u32le(42));
    assert_eq!(decoder.decode_log(&frame).unwrap().to_string(), "arg = 42");
}
