//! Rendering scenarios: pointers, byte arrays as strings, enumerations,
//! structures, and the numeric format options.

use cdefmt_decoder::format::DisplayHint;
use cdefmt_decoder::format::DisplayType;
use cdefmt_decoder::format::TextAlign;
use cdefmt_decoder::render::render_log;
use cdefmt_decoder::var::Var;

fn hint() -> DisplayHint {
    DisplayHint {
        align: None,
        sign: false,
        alternate: false,
        zero_pad: false,
        width: None,
        precision: None,
        ty: DisplayType::Display,
    }
}

#[test]
fn pointer_renders_zero_padded_hex() {
    let v = Var::Pointer(Box::new(Var::U32(0x1234)));
    assert_eq!(v.format(&hint()), b"0x00001234".to_vec());
}

#[test]
fn pointer_width_follows_pointee() {
    let v = Var::Pointer(Box::new(Var::U16(0xab)));
    assert_eq!(v.format(&hint()), b"0x00ab".to_vec());
    let v = Var::Pointer(Box::new(Var::U64(0x1234)));
    assert_eq!(v.format(&hint()), b"0x0000000000001234".to_vec());
}

#[test]
fn array_as_string_concatenates_bytes() {
    let v = Var::Array(vec![Var::U8(104), Var::U8(105)]);
    let mut h = hint();
    h.ty = DisplayType::Str;
    assert_eq!(v.format(&h), b"hi".to_vec());
}

#[test]
fn array_without_string_hint_lists_elements() {
    let v = Var::Array(vec![Var::U8(1), Var::U8(2), Var::U8(3)]);
    assert_eq!(v.format(&hint()), b"[1, 2, 3]".to_vec());
}

fn onoff() -> Vec<(i128, Vec<u8>)> {
    vec![(0, b"OFF".to_vec()), (1, b"ON".to_vec())]
}

#[test]
fn enum_with_known_value_renders_name() {
    let v = Var::Enumeration { value: Box::new(Var::U8(1)), valid_values: onoff() };
    assert_eq!(v.format(&hint()), b"ON".to_vec());
}

#[test]
fn enum_with_unknown_value_renders_decimal() {
    let v = Var::Enumeration { value: Box::new(Var::U8(2)), valid_values: onoff() };
    assert_eq!(v.format(&hint()), b"2".to_vec());
}

fn two_member_structure() -> Var {
    Var::Structure {
        members: vec![
            cdefmt_decoder::var::StructureMember { name: b"a".to_vec(), value: Var::U8(1) },
            cdefmt_decoder::var::StructureMember { name: b"b".to_vec(), value: Var::U8(2) },
        ],
    }
}

#[test]
fn structure_renders_inline_by_default() {
    assert_eq!(two_member_structure().format(&hint()), b"{ a: 1, b: 2 }".to_vec());
}

#[test]
fn structure_renders_pretty_with_alternate() {
    let mut h = hint();
    h.alternate = true;
    assert_eq!(two_member_structure().format(&h), b"{\n\ta: 1,\n\tb: 2\n}".to_vec());
}

#[test]
fn bool_renders_regardless_of_type_hint() {
    let mut h = hint();
    h.ty = DisplayType::LowerHex;
    assert_eq!(Var::Bool(true).format(&h), b"true".to_vec());
    assert_eq!(Var::Bool(false).format(&hint()), b"false".to_vec());
}

#[test]
fn signed_decimal_renders_minus() {
    assert_eq!(Var::I8(-5).format(&hint()), b"-5".to_vec());
    assert_eq!(Var::I32(-2147483648).format(&hint()), b"-2147483648".to_vec());
}

#[test]
fn sign_flag_prefixes_plus() {
    let mut h = hint();
    h.sign = true;
    assert_eq!(Var::U8(7).format(&h), b"+7".to_vec());
}

#[test]
fn hex_uses_bit_pattern_of_signed() {
    let mut h = hint();
    h.ty = DisplayType::LowerHex;
    assert_eq!(Var::I8(-1).format(&h), b"ff".to_vec());
    h.ty = DisplayType::UpperHex;
    assert_eq!(Var::I16(-2).format(&h), b"FFFE".to_vec());
}

#[test]
fn alternate_prefixes_base() {
    let mut h = hint();
    h.ty = DisplayType::Binary;
    h.alternate = true;
    assert_eq!(Var::U8(5).format(&h), b"0b101".to_vec());
    h.ty = DisplayType::Octal;
    assert_eq!(Var::U8(9).format(&h), b"0o11".to_vec());
    h.ty = DisplayType::LowerHex;
    assert_eq!(Var::U16(0xab).format(&h), b"0xab".to_vec());
}

#[test]
fn zero_pad_fills_between_prefix_and_digits() {
    let mut h = hint();
    h.ty = DisplayType::LowerHex;
    h.alternate = true;
    h.zero_pad = true;
    h.width = Some(8);
    assert_eq!(Var::U16(0xab).format(&h), b"0x0000ab".to_vec());
}

#[test]
fn width_aligns_right_by_default_for_numbers() {
    let mut h = hint();
    h.width = Some(5);
    assert_eq!(Var::U8(42).format(&h), b"   42".to_vec());
    h.align = Some(TextAlign::Left);
    assert_eq!(Var::U8(42).format(&h), b"42   ".to_vec());
    h.align = Some(TextAlign::Center);
    assert_eq!(Var::U8(42).format(&h), b" 42  ".to_vec());
}

#[test]
fn scientific_renders_trimmed_mantissa() {
    let mut h = hint();
    h.ty = DisplayType::LowerExp;
    assert_eq!(Var::U32(1500).format(&h), b"1.5e3".to_vec());
    assert_eq!(Var::U32(1000).format(&h), b"1e3".to_vec());
    assert_eq!(Var::U32(7).format(&h), b"7e0".to_vec());
    assert_eq!(Var::I32(-1050).format(&h), b"-1.05e3".to_vec());
    h.ty = DisplayType::UpperExp;
    assert_eq!(Var::U32(1500).format(&h), b"1.5E3".to_vec());
}

#[test]
fn string_hint_on_non_ascii_byte_is_lossy() {
    let mut h = hint();
    h.ty = DisplayType::Str;
    assert_eq!(Var::U8(200).format(&h), vec![0xEF, 0xBF, 0xBD]);
    assert_eq!(Var::U8(104).format(&h), b"h".to_vec());
}

#[test]
fn out_of_range_positional_renders_inline_error() {
    let names: Vec<Vec<u8>> = vec![];
    let args = vec![Var::U8(1), Var::U8(2)];
    let out = render_log(b"{3}", &names, &args);
    assert_eq!(out, b"{No positional parameter at index 3}".to_vec());
}

#[test]
fn out_of_range_positional_embeds_in_surrounding_text() {
    let names: Vec<Vec<u8>> = vec![];
    let args = vec![Var::U8(1), Var::U8(2)];
    let out = render_log(b"v = {{{3}}} end", &names, &args);
    assert_eq!(out, b"v = {{No positional parameter at index 3}} end".to_vec());
}

#[test]
fn named_and_implicit_parameters_bind() {
    let names: Vec<Vec<u8>> = vec![b"x".to_vec(), b"y".to_vec()];
    let args = vec![Var::U8(1), Var::U8(2)];
    assert_eq!(render_log(b"{y} {} {}", &names, &args), b"2 1 2".to_vec());
    assert_eq!(render_log(b"{z}", &names, &args), b"{No named parameter 'z'}".to_vec());
    assert_eq!(
        render_log(b"{} {} {}", &names, &args),
        b"1 2 {No parameter at index 2}".to_vec()
    );
}

#[test]
fn escaped_braces_render_once() {
    let names: Vec<Vec<u8>> = vec![];
    let args: Vec<Var> = vec![];
    assert_eq!(render_log(b"a {{b}} c", &names, &args), b"a {b} c".to_vec());
}
