use rustfmt_schema::header::parse_header;
use rustfmt_schema::item::{ItemMap, Value};
use rustfmt_schema::typ::{parse_i64, Type};
use rustfmt_schema::error::ParseError;

#[test]
fn header_with_all_segments() {
    let h = parse_header(b"brace_style [Always|Never] Default: Always (unstable)").unwrap();
    assert_eq!(h.key, b"brace_style".to_vec());
    assert_eq!(h.bracket, Some(b"Always|Never".to_vec()));
    assert_eq!(h.type_hint, None);
    assert_eq!(h.default, Some(b"Always".to_vec()));
    assert!(h.unstable);
}

#[test]
fn header_type_hint_and_default() {
    let h = parse_header(b"tab_spaces <unsigned integer> Default: 4").unwrap();
    assert_eq!(h.key, b"tab_spaces".to_vec());
    assert_eq!(h.bracket, None);
    assert_eq!(h.type_hint, Some(b"unsigned integer".to_vec()));
    assert_eq!(h.default, Some(b"4".to_vec()));
    assert!(!h.unstable);
}

#[test]
fn header_key_alone_does_not_match() {
    assert!(parse_header(b"lonely_key").is_none());
}

#[test]
fn header_needs_space_after_key() {
    assert!(parse_header(b"key[a|b]").is_none());
}

#[test]
fn header_trailing_garbage_does_not_match() {
    assert!(parse_header(b"foo extra garbage !!!").is_none());
}

#[test]
fn header_unstable_after_bracket() {
    let h = parse_header(b"opt [a|b] (unstable)").unwrap();
    assert_eq!(h.bracket, Some(b"a|b".to_vec()));
    assert_eq!(h.default, None);
    assert!(h.unstable);
}

#[test]
fn header_default_swallows_inner_text() {
    let h = parse_header(b"opt <string> Default: a (unstable) b").unwrap();
    assert_eq!(h.default, Some(b"a (unstable) b".to_vec()));
    assert!(!h.unstable);
}

#[test]
fn header_empty_default_token() {
    let h = parse_header(b"opt <string> Default:").unwrap();
    assert_eq!(h.default, Some(b"".to_vec()));
    assert!(!h.unstable);
}

#[test]
fn header_bracket_then_hint_without_space() {
    let h = parse_header(b"opt [x|y]<boolean> Default: x").unwrap();
    assert_eq!(h.bracket, Some(b"x|y".to_vec()));
    assert_eq!(h.type_hint, Some(b"boolean".to_vec()));
    assert_eq!(h.default, Some(b"x".to_vec()));
}

#[test]
fn header_unclosed_bracket_fails() {
    assert!(parse_header(b"opt [a|b Default: x").is_none());
}

#[test]
fn parse_i64_plain_and_signed() {
    assert_eq!(parse_i64(b"0"), Some(0));
    assert_eq!(parse_i64(b"100"), Some(100));
    assert_eq!(parse_i64(b"+42"), Some(42));
    assert_eq!(parse_i64(b"-17"), Some(-17));
    assert_eq!(parse_i64(b"00012"), Some(12));
}

#[test]
fn parse_i64_limits() {
    assert_eq!(parse_i64(b"9223372036854775807"), Some(i64::MAX));
    assert_eq!(parse_i64(b"-9223372036854775808"), Some(i64::MIN));
    assert_eq!(parse_i64(b"9223372036854775808"), None);
    assert_eq!(parse_i64(b"-9223372036854775809"), None);
    assert_eq!(parse_i64(b"99999999999999999999999999"), None);
}

#[test]
fn parse_i64_rejects_malformed() {
    assert_eq!(parse_i64(b""), None);
    assert_eq!(parse_i64(b"-"), None);
    assert_eq!(parse_i64(b"+"), None);
    assert_eq!(parse_i64(b"1x"), None);
    assert_eq!(parse_i64(b" 1"), None);
    assert_eq!(parse_i64(b"1.5"), None);
}

#[test]
fn type_from_name_recognized() {
    assert_eq!(Type::from_name(b"integer").unwrap(), Type::Integer);
    assert_eq!(Type::from_name(b"unsigned integer").unwrap(), Type::Integer);
    assert_eq!(Type::from_name(b"boolean").unwrap(), Type::Boolean);
    assert_eq!(Type::from_name(b"string").unwrap(), Type::String);
}

#[test]
fn type_from_name_unknown() {
    let err = Type::from_name(b"float").unwrap_err();
    assert!(matches!(err, ParseError::UnknownType { token } if token == b"float".to_vec()));
}

#[test]
fn type_parse_integer() {
    assert_eq!(Type::Integer.parse(b"-3").unwrap(), Value::Integer(-3));
    assert!(matches!(
        Type::Integer.parse(b"three").unwrap_err(),
        ParseError::InvalidInteger { .. }
    ));
}

#[test]
fn type_parse_boolean() {
    assert_eq!(Type::Boolean.parse(b"true").unwrap(), Value::Boolean(true));
    assert_eq!(Type::Boolean.parse(b"false").unwrap(), Value::Boolean(false));
    assert!(matches!(
        Type::Boolean.parse(b"True").unwrap_err(),
        ParseError::UnknownBoolean { .. }
    ));
}

#[test]
fn type_parse_string_verbatim() {
    assert_eq!(
        Type::String.parse(b"Visual Studio").unwrap(),
        Value::String(b"Visual Studio".to_vec())
    );
}

#[test]
fn type_parse_array_only_empty() {
    assert_eq!(Type::Array.parse(b"[]").unwrap(), Value::Array(vec![]));
    assert!(matches!(
        Type::Array.parse(b"[0]").unwrap_err(),
        ParseError::ArrayLiteral { .. }
    ));
}

#[test]
fn type_parse_object_unsupported() {
    assert!(matches!(
        Type::Object.parse(b"{}").unwrap_err(),
        ParseError::UnsupportedType { typ: Type::Object }
    ));
}

#[test]
fn item_map_insert_and_lookup() {
    let mut m = ItemMap::new();
    assert!(!m.contains_key(b"alpha"));
    let item = rustfmt_schema::item::Item {
        typ: Some(Type::String),
        description: None,
        default: None,
        enum_values: None,
    };
    m.insert(b"alpha".to_vec(), item);
    assert!(m.contains_key(b"alpha"));
    assert!(!m.contains_key(b"beta"));
    assert_eq!(m.len(), 1);
}
