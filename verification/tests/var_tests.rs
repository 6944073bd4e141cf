//! Value-parser scenarios: exact consumption, member names, padding skip,
//! empty dimensions, and the dynamic-array replacement.

use cdefmt_decoder::decoder::decode_log_args;
use cdefmt_decoder::dwarf::array_dimension;
use cdefmt_decoder::types::StructureMember;
use cdefmt_decoder::types::Type;
use cdefmt_decoder::var::Var;
use cdefmt_decoder::DecodeError;
use cdefmt_decoder::Endian;

#[test]
fn primitives_consume_their_widths() {
    let data = [0x78u8, 0x56, 0x34, 0x12, 0xFF];
    let mut pos = 0usize;
    let (v, n) = Var::parse(&Type::U32, &data, &mut pos, Endian::Little).unwrap();
    assert!(matches!(v, Var::U32(0x12345678)));
    assert_eq!(n, 4);
    assert_eq!(pos, 4);

    let mut pos = 0usize;
    let (v, n) = Var::parse(&Type::U16, &data, &mut pos, Endian::Big).unwrap();
    assert!(matches!(v, Var::U16(0x7856)));
    assert_eq!(n, 2);
    assert_eq!(pos, 2);

    let mut pos = 0usize;
    let (v, _) = Var::parse(&Type::I8, &[0xFBu8], &mut pos, Endian::Little).unwrap();
    assert!(matches!(v, Var::I8(-5)));
}

#[test]
fn bool_is_true_on_zero_byte() {
    let mut pos = 0usize;
    let (v, _) = Var::parse(&Type::Bool, &[0u8], &mut pos, Endian::Little).unwrap();
    assert!(matches!(v, Var::Bool(true)));
    let mut pos = 0usize;
    let (v, _) = Var::parse(&Type::Bool, &[1u8], &mut pos, Endian::Little).unwrap();
    assert!(matches!(v, Var::Bool(false)));
}

#[test]
fn float_bits_are_kept() {
    let mut pos = 0usize;
    let (v, n) = Var::parse(&Type::F32, &[0, 0, 0x80, 0x3F], &mut pos, Endian::Little).unwrap();
    assert!(matches!(v, Var::F32(0x3F800000)));
    assert_eq!(n, 4);
}

#[test]
fn short_payload_is_out_of_bounds() {
    let mut pos = 0usize;
    match Var::parse(&Type::U64, &[1u8, 2, 3], &mut pos, Endian::Little) {
        Err(DecodeError::OutOfBounds(_, _)) => {},
        other => panic!("expected out of bounds, got {:?}", other),
    }
}

fn two_member_type() -> Type {
    Type::Structure {
        members: vec![
            StructureMember { offset: 0, name: b"a".to_vec(), ty: Type::U8 },
            StructureMember { offset: 4, name: b"b".to_vec(), ty: Type::U16 },
        ],
        size: 8,
    }
}

#[test]
fn structure_skips_gaps_and_tail_padding() {
    // a at 0, 3 bytes of gap, b at 4, 2 bytes of tail padding.
    let data = [7u8, 0xAA, 0xAA, 0xAA, 0x34, 0x12, 0xAA, 0xAA, 0xFF];
    let mut pos = 0usize;
    let (v, n) = Var::parse(&two_member_type(), &data, &mut pos, Endian::Little).unwrap();
    assert_eq!(n, 8);
    assert_eq!(pos, 8);
    match v {
        Var::Structure { members } => {
            assert_eq!(members.len(), 2);
            assert_eq!(members[0].name, b"a".to_vec());
            assert!(matches!(members[0].value, Var::U8(7)));
            assert_eq!(members[1].name, b"b".to_vec());
            assert!(matches!(members[1].value, Var::U16(0x1234)));
        },
        other => panic!("expected a structure, got {:?}", other),
    }
}

#[test]
fn enumeration_consumes_storage_width() {
    let ty = Type::Enumeration {
        ty: Box::new(Type::U16),
        valid_values: vec![(1, b"ONE".to_vec())],
    };
    let mut pos = 0usize;
    let (v, n) = Var::parse(&ty, &[1u8, 0, 9], &mut pos, Endian::Little).unwrap();
    assert_eq!(n, 2);
    assert_eq!(pos, 2);
    match v {
        Var::Enumeration { value, valid_values } => {
            assert!(matches!(*value, Var::U16(1)));
            assert_eq!(valid_values, vec![(1i128, b"ONE".to_vec())]);
        },
        other => panic!("expected an enumeration, got {:?}", other),
    }
}

#[test]
fn array_reports_zero_consumed_bytes() {
    let ty = Type::Array { ty: Box::new(Type::U8), lengths: vec![3] };
    let data = [1u8, 2, 3, 4];
    let mut pos = 0usize;
    let (v, n) = Var::parse(&ty, &data, &mut pos, Endian::Little).unwrap();
    assert_eq!(n, 0);
    assert_eq!(pos, 3);
    match v {
        Var::Array(elems) => assert_eq!(elems.len(), 3),
        other => panic!("expected an array, got {:?}", other),
    }
}

#[test]
fn multi_dimensional_array_nests() {
    let ty = Type::Array { ty: Box::new(Type::U8), lengths: vec![2, 3] };
    let data = [1u8, 2, 3, 4, 5, 6];
    let mut pos = 0usize;
    let (v, _) = Var::parse(&ty, &data, &mut pos, Endian::Little).unwrap();
    assert_eq!(pos, 6);
    match v {
        Var::Array(rows) => {
            assert_eq!(rows.len(), 2);
            match &rows[1] {
                Var::Array(inner) => {
                    assert_eq!(inner.len(), 3);
                    assert!(matches!(inner[2], Var::U8(6)));
                },
                other => panic!("expected a nested array, got {:?}", other),
            }
        },
        other => panic!("expected an array, got {:?}", other),
    }
}

#[test]
fn all_ones_upper_bound_is_an_empty_dimension() {
    assert_eq!(array_dimension(None, 0, u64::MAX).unwrap(), 0);
    assert_eq!(array_dimension(None, 0, 4).unwrap(), 5);
    assert_eq!(array_dimension(None, 1, 4).unwrap(), 4);
    assert_eq!(array_dimension(Some(7), 0, u64::MAX).unwrap(), 7);
    assert!(matches!(array_dimension(None, 5, 4), Err(DecodeError::BadAttribute)));
}

#[test]
fn zero_length_array_parses_empty() {
    let ty = Type::Array { ty: Box::new(Type::U16), lengths: vec![0] };
    let data: [u8; 0] = [];
    let mut pos = 0usize;
    let (v, n) = Var::parse(&ty, &data, &mut pos, Endian::Little).unwrap();
    assert_eq!(n, 0);
    assert_eq!(pos, 0);
    match v {
        Var::Array(elems) => assert!(elems.is_empty()),
        other => panic!("expected an array, got {:?}", other),
    }
}

#[test]
fn as_u64_and_as_i128_widen() {
    assert_eq!(Var::I8(-1).as_u64(), u64::MAX);
    assert_eq!(Var::U32(7).as_u64(), 7);
    assert_eq!(Var::Bool(true).as_i128(), 1);
    assert_eq!(Var::I64(-3).as_i128(), -3);
}

/// The argument structure of the dynamic-array scenario: a leading
/// identifier, a dynamic-array descriptor, and the trailing dynamic-data
/// member.
fn dynamic_args_type() -> Type {
    let descriptor = Type::Structure {
        members: vec![
            StructureMember { offset: 0, name: b"size".to_vec(), ty: Type::U32 },
            StructureMember {
                offset: 4,
                name: b"data".to_vec(),
                ty: Type::Array { ty: Box::new(Type::U16), lengths: vec![0] },
            },
        ],
        size: 8,
    };
    Type::Structure {
        members: vec![
            StructureMember { offset: 0, name: b"log_id".to_vec(), ty: Type::U32 },
            StructureMember { offset: 4, name: b"dynamic_array_x".to_vec(), ty: descriptor },
            StructureMember {
                offset: 12,
                name: b"dynamic_data".to_vec(),
                ty: Type::Array { ty: Box::new(Type::U8), lengths: vec![0] },
            },
        ],
        size: 12,
    }
}

#[test]
fn dynamic_array_member_is_replaced_from_the_tail() {
    let ty = dynamic_args_type();
    // Fixed part: descriptor with size = 6 and 4 bytes of padding; then
    // six raw element bytes.
    let payload = [6u8, 0, 0, 0, 0xAA, 0xAA, 0xAA, 0xAA, 0x00, 0x01, 0x00, 0x02, 0x00, 0x03];
    let mut pos = 0usize;
    let args = decode_log_args(&ty, &payload, &mut pos, Endian::Little).unwrap();
    assert_eq!(args.len(), 1);
    match &args[0] {
        Var::Array(elems) => {
            assert_eq!(elems.len(), 3);
            assert!(matches!(elems[0], Var::U16(256)));
            assert!(matches!(elems[1], Var::U16(512)));
            assert!(matches!(elems[2], Var::U16(768)));
        },
        other => panic!("expected the replaced array, got {:?}", other),
    }
    assert_eq!(pos, 14);
}
