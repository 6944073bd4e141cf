//! Metadata-record parsing scenarios: a round trip through hand-laid
//! bytes, and one input for each error kind.

use cdefmt_decoder::metadata::parse_metadata;
use cdefmt_decoder::metadata::Level;
use cdefmt_decoder::DecodeError;
use cdefmt_decoder::Endian;

fn u32le(v: u32) -> Vec<u8> {
    vec![v as u8, (v >> 8) as u8, (v >> 16) as u8, (v >> 24) as u8]
}

/// Lays one record out as the target does: six header words, the level
/// byte, then the NUL-terminated strings.
fn record(version: u32, counter: u32, line: u32, level: u8, file: &[u8], fmt: &[u8], names: &[&[u8]]) -> Vec<u8> {
    let mut out = Vec::new();
    out.extend_from_slice(&u32le(version));
    out.extend_from_slice(&u32le(counter));
    out.extend_from_slice(&u32le(line));
    out.extend_from_slice(&u32le(file.len() as u32 + 1));
    out.extend_from_slice(&u32le(fmt.len() as u32 + 1));
    out.extend_from_slice(&u32le(names.len() as u32));
    out.push(level);
    out.extend_from_slice(file);
    out.push(0);
    out.extend_from_slice(fmt);
    out.push(0);
    for n in names {
        out.extend_from_slice(&u32le(n.len() as u32 + 1));
        out.extend_from_slice(n);
        out.push(0);
    }
    out
}

#[test]
fn record_round_trips() {
    let mut section = vec![0u8; 3];
    let rec = record(1, 7, 42, 2, b"main.c", b"x = {}", &[b"x", b"y"]);
    section.extend_from_slice(&rec);
    let m = parse_metadata(&section, 3, Endian::Little).unwrap();
    assert_eq!(m.id, 3);
    assert_eq!(m.counter, 7);
    assert_eq!(m.line, 42);
    assert_eq!(m.level, Level::Info);
    assert_eq!(m.file, b"main.c".to_vec());
    assert_eq!(m.fmt, b"x = {}".to_vec());
    assert_eq!(m.names, vec![b"x".to_vec(), b"y".to_vec()]);
}

#[test]
fn record_round_trips_big_endian() {
    let rec = {
        let mut out = Vec::new();
        for v in [1u32, 9, 100, 2, 3, 0] {
            out.extend_from_slice(&[(v >> 24) as u8, (v >> 16) as u8, (v >> 8) as u8, v as u8]);
        }
        out.push(0);
        out.extend_from_slice(b"a\0");
        out.extend_from_slice(b"b!\0");
        out
    };
    let m = parse_metadata(&rec, 0, Endian::Big).unwrap();
    assert_eq!(m.counter, 9);
    assert_eq!(m.line, 100);
    assert_eq!(m.level, Level::Error);
    assert_eq!(m.file, b"a".to_vec());
    assert_eq!(m.fmt, b"b!".to_vec());
    assert!(m.names.is_empty());
}

#[test]
fn wrong_schema_version_is_rejected() {
    let rec = record(2, 0, 0, 0, b"f", b"g", &[]);
    match parse_metadata(&rec, 0, Endian::Little) {
        Err(DecodeError::Schema(2)) => {},
        other => panic!("expected a schema error, got {:?}", other),
    }
}

#[test]
fn truncated_record_is_out_of_bounds() {
    let rec = record(1, 0, 0, 0, b"f", b"g", &[]);
    // The error names the log id and the section length.
    match parse_metadata(&rec[..10], 0, Endian::Little) {
        Err(DecodeError::OutOfBounds(id, len)) => {
            assert_eq!(id, 0);
            assert_eq!(len, 10);
        },
        other => panic!("expected out of bounds, got {:?}", other),
    }
    match parse_metadata(&rec, 9999, Endian::Little) {
        Err(DecodeError::OutOfBounds(id, len)) => {
            assert_eq!(id, 9999);
            assert_eq!(len, rec.len() as u64);
        },
        other => panic!("expected out of bounds, got {:?}", other),
    }
}

#[test]
fn missing_nul_is_rejected() {
    let mut rec = record(1, 0, 0, 0, b"f", b"g", &[]);
    // Overwrite the file string's NUL.
    rec[26] = b'x';
    match parse_metadata(&rec, 0, Endian::Little) {
        Err(DecodeError::NoNullTerm) => {},
        other => panic!("expected a missing terminator, got {:?}", other),
    }
}

#[test]
fn malformed_utf8_is_rejected() {
    let mut section = vec![0u8; 6];
    section.extend_from_slice(&record(1, 0, 0, 0, &[0xFF, 0xFE], b"g", &[]));
    // The error names the log id.
    match parse_metadata(&section, 6, Endian::Little) {
        Err(DecodeError::Utf8(6)) => {},
        other => panic!("expected a text error, got {:?}", other),
    }
}

#[test]
fn out_of_range_level_is_rejected() {
    let rec = record(1, 0, 0, 9, b"f", b"g", &[]);
    match parse_metadata(&rec, 0, Endian::Little) {
        Err(DecodeError::Custom(_)) => {},
        other => panic!("expected a level error, got {:?}", other),
    }
}

#[test]
fn multibyte_utf8_strings_parse() {
    let rec = record(1, 0, 0, 4, "f\u{00e9}.c".as_bytes(), "\u{2192} {}".as_bytes(), &[]);
    let m = parse_metadata(&rec, 0, Endian::Little).unwrap();
    assert_eq!(m.level, Level::Verbose);
    assert_eq!(m.file, "f\u{00e9}.c".as_bytes().to_vec());
    assert_eq!(m.fmt, "\u{2192} {}".as_bytes().to_vec());
}
