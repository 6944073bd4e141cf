//! Tokenizer and placeholder-parser scenarios.

use cdefmt_decoder::format::fragments;
use cdefmt_decoder::format::DisplayType;
use cdefmt_decoder::format::FormatStringFragment;
use cdefmt_decoder::format::Parameter;
use cdefmt_decoder::format::ParameterPosition;
use cdefmt_decoder::format::TextAlign;

#[test]
fn malformed_format_string_yields_literal_then_error() {
    let frags = fragments(b"x = {");
    assert_eq!(frags.len(), 2);
    match &frags[0] {
        FormatStringFragment::Literal(l) => assert_eq!(l, &b"x = ".to_vec()),
        _ => panic!("expected a literal"),
    }
    match &frags[1] {
        FormatStringFragment::Error(raw) => assert_eq!(raw, &b"{".to_vec()),
        _ => panic!("expected an error fragment"),
    }
}

fn count_params(frags: &[FormatStringFragment]) -> usize {
    let mut n = 0;
    for f in frags {
        if matches!(f, FormatStringFragment::Parameter(_)) {
            n += 1;
        }
    }
    n
}

#[test]
fn parameter_sites_match_placeholders() {
    assert_eq!(count_params(&fragments(b"a{}b{{x}}{1}c")), 2);
    assert_eq!(count_params(&fragments(b"{{}}")), 0);
    assert_eq!(count_params(&fragments(b"{a}{b}{c}")), 3);
    assert_eq!(count_params(&fragments(b"plain text")), 0);
}

#[test]
fn escapes_tokenize_to_single_braces() {
    let frags = fragments(b"{{}}");
    assert_eq!(frags.len(), 2);
    assert!(matches!(frags[0], FormatStringFragment::Escaped(0x7B)));
    assert!(matches!(frags[1], FormatStringFragment::Escaped(0x7D)));
}

#[test]
fn positional_parameter_parses() {
    let p = Parameter::parse(b"12");
    assert!(matches!(p.position, Some(ParameterPosition::Positional(12))));
    assert!(matches!(p.hint.ty, DisplayType::Display));
}

#[test]
fn named_parameter_parses() {
    let p = Parameter::parse(b"speed");
    match p.position {
        Some(ParameterPosition::Named(n)) => assert_eq!(n, b"speed".to_vec()),
        _ => panic!("expected a named position"),
    }
}

#[test]
fn full_format_spec_parses() {
    let p = Parameter::parse(b"x:<+#08.3b");
    match p.position {
        Some(ParameterPosition::Named(n)) => assert_eq!(n, b"x".to_vec()),
        _ => panic!("expected a named position"),
    }
    assert_eq!(p.hint.align, Some(TextAlign::Left));
    assert!(p.hint.sign);
    assert!(p.hint.alternate);
    assert!(p.hint.zero_pad);
    assert_eq!(p.hint.width, Some(8));
    assert_eq!(p.hint.precision, Some(3));
    assert!(matches!(p.hint.ty, DisplayType::Binary));
}

#[test]
fn empty_spec_gives_defaults() {
    let p = Parameter::parse(b"");
    assert!(p.position.is_none());
    assert!(p.hint.align.is_none());
    assert!(!p.hint.sign && !p.hint.alternate && !p.hint.zero_pad);
    assert!(p.hint.width.is_none() && p.hint.precision.is_none());
    assert!(matches!(p.hint.ty, DisplayType::Display));
}

#[test]
fn unknown_spec_bytes_are_ignored() {
    let p = Parameter::parse(b"1:Q5");
    assert!(matches!(p.position, Some(ParameterPosition::Positional(1))));
    assert!(p.hint.width.is_none());
    assert!(matches!(p.hint.ty, DisplayType::Display));
}

#[test]
fn string_type_parses() {
    let p = Parameter::parse(b":s");
    assert!(matches!(p.hint.ty, DisplayType::Str));
}
