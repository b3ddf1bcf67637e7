use rustfmt_schema::builder::{build_config_schema, parse_output, reconcile, to_item};
use rustfmt_schema::error::ParseError;
use rustfmt_schema::item::{Item, ItemMap, Value};
use rustfmt_schema::typ::Type;

fn get<'a>(m: &'a ItemMap, key: &[u8]) -> Option<&'a Item> {
    let mut found = None;
    for (k, item) in m.entries.iter() {
        if k.as_slice() == key {
            found = Some(item);
        }
    }
    found
}

fn desc_string(item: &Item) -> String {
    String::from_utf8(item.description.clone().unwrap()).unwrap()
}

#[test]
fn example_boolean_option_block() {
    let block = b"wrap_comments <boolean> Default: false\nShould fixup comments to respect wrap length";
    let (key, item) = to_item(block).unwrap();
    assert_eq!(key, b"wrap_comments".to_vec());
    assert_eq!(item.typ, Some(Type::Boolean));
    assert_eq!(
        item.enum_values,
        Some(vec![Value::Boolean(true), Value::Boolean(false)])
    );
    assert_eq!(item.default, Some(Value::Boolean(false)));
    let desc = desc_string(&item);
    assert_eq!(
        desc,
        "Should fixup comments to respect wrap length\n\n[Documentation](https://rust-lang.github.io/rustfmt/#wrap_comments)"
    );
}

#[test]
fn parsing_is_deterministic() {
    let block = b"max_width <unsigned integer> Default: 100\nMaximum width of each line";
    let first = to_item(block).unwrap();
    let second = to_item(block).unwrap();
    assert_eq!(first, second);
}

#[test]
fn integer_option_with_default() {
    let block = b"max_width <unsigned integer> Default: 100\nMaximum width of each line";
    let (key, item) = to_item(block).unwrap();
    assert_eq!(key, b"max_width".to_vec());
    assert_eq!(item.typ, Some(Type::Integer));
    assert_eq!(item.default, Some(Value::Integer(100)));
    assert_eq!(item.enum_values, None);
}

#[test]
fn explicit_enum_round_trip() {
    let block = b"newline_style [Auto|Windows|Unix|Native] Default: Auto\nUnix or Windows line endings";
    let (key, item) = to_item(block).unwrap();
    assert_eq!(key, b"newline_style".to_vec());
    assert_eq!(item.typ, Some(Type::String));
    assert_eq!(
        item.enum_values,
        Some(vec![
            Value::String(b"Auto".to_vec()),
            Value::String(b"Windows".to_vec()),
            Value::String(b"Unix".to_vec()),
            Value::String(b"Native".to_vec()),
        ])
    );
    assert_eq!(item.default, Some(Value::String(b"Auto".to_vec())));
}

#[test]
fn boolean_enum_kept_from_explicit_list() {
    // An explicit list beside a boolean hint is kept verbatim as strings.
    let block = b"use_tabs [true|false]<boolean> Default: false\nUse tabs";
    let (_, item) = to_item(block).unwrap();
    assert_eq!(item.typ, Some(Type::Boolean));
    assert_eq!(
        item.enum_values,
        Some(vec![
            Value::String(b"true".to_vec()),
            Value::String(b"false".to_vec()),
        ])
    );
}

#[test]
fn open_list_yields_array_without_enum() {
    let block = b"fn_args_layout [<integer>,..] Default: []\nWidths to try";
    let (_, item) = to_item(block).unwrap();
    assert_eq!(item.typ, Some(Type::Array));
    assert_eq!(item.enum_values, None);
    assert_eq!(item.default, Some(Value::Array(vec![])));
}

#[test]
fn open_list_element_type_is_validated() {
    let block = b"fn_args_layout [<widget>,..] Default: []\nWidths to try";
    let err = to_item(block).unwrap_err();
    assert!(matches!(err, ParseError::UnknownType { token } if token == b"widget".to_vec()));
}

#[test]
fn unstable_inline_marker() {
    let block = b"condense_wildcard_suffixes <boolean> Default: false (unstable)\nReplace strings of _ wildcards";
    let (_, item) = to_item(block).unwrap();
    assert_eq!(item.default, Some(Value::Boolean(false)));
}

#[test]
fn grammar_mismatch_fails_whole_run() {
    let text = b"Configuration Options:\nfoo extra garbage !!!\nSome description";
    let err = parse_output(text).unwrap_err();
    assert!(matches!(err, ParseError::Grammar { line } if line == b"foo extra garbage !!!".to_vec()));
}

#[test]
fn block_with_three_lines_fails() {
    let block = b"max_width <integer>\nFirst line\nSecond line";
    let err = to_item(block).unwrap_err();
    assert!(matches!(err, ParseError::BlockShape { .. }));
}

#[test]
fn block_with_one_line_fails() {
    let err = to_item(b"max_width <integer>").unwrap_err();
    assert!(matches!(err, ParseError::BlockShape { .. }));
}

#[test]
fn bad_boolean_default_fails() {
    let block = b"use_tabs <boolean> Default: maybe\nUse tabs";
    let err = to_item(block).unwrap_err();
    assert!(matches!(err, ParseError::UnknownBoolean { token } if token == b"maybe".to_vec()));
}

#[test]
fn bad_integer_default_fails() {
    let block = b"max_width <integer> Default: wide\nWidth";
    let err = to_item(block).unwrap_err();
    assert!(matches!(err, ParseError::InvalidInteger { token } if token == b"wide".to_vec()));
}

#[test]
fn bad_array_default_fails() {
    let block = b"widths [<integer>,..] Default: [1]\nWidths";
    let err = to_item(block).unwrap_err();
    assert!(matches!(err, ParseError::ArrayLiteral { token } if token == b"[1]".to_vec()));
}

#[test]
fn missing_type_hint_defaults_to_string() {
    let block = b"edition  Default: 2015\nThe edition of the parser";
    let (_, item) = to_item(block).unwrap();
    assert_eq!(item.typ, Some(Type::String));
    assert_eq!(item.default, Some(Value::String(b"2015".to_vec())));
}

#[test]
fn lines_are_trimmed() {
    let block = b"  indent_style <string> Default: Block  \n   Indentation style   ";
    let (key, item) = to_item(block).unwrap();
    assert_eq!(key, b"indent_style".to_vec());
    assert_eq!(item.default, Some(Value::String(b"Block".to_vec())));
    assert!(desc_string(&item).starts_with("Indentation style\n\n"));
}

#[test]
fn reconcile_is_set_difference() {
    let nightly_text = b"Configuration Options:\n\
        alpha <boolean> Default: true\nFirst option\n\n\
        beta <integer> Default: 4\nSecond option\n\n\
        gamma <boolean> Default: false\nThird option";
    let stable_text = b"Configuration Options:\n\
        alpha <boolean> Default: true\nFirst option\n\n\
        beta <integer> Default: 4\nSecond option";
    let nightly = parse_output(nightly_text).unwrap();
    let stable = parse_output(stable_text).unwrap();
    let merged = reconcile(nightly, &stable);
    assert_eq!(merged.entries.len(), 3);
    let marker = "\n\n### Unstable\nThis option requires the experimental channel.";
    let alpha = desc_string(get(&merged, b"alpha").unwrap());
    let beta = desc_string(get(&merged, b"beta").unwrap());
    let gamma = desc_string(get(&merged, b"gamma").unwrap());
    assert!(!alpha.contains("### Unstable"));
    assert!(!beta.contains("### Unstable"));
    assert!(gamma.ends_with(marker));
    assert_eq!(
        gamma,
        format!(
            "Third option\n\n[Documentation](https://rust-lang.github.io/rustfmt/#gamma){}",
            marker
        )
    );
}

#[test]
fn full_pipeline_builds_root_schema() {
    let nightly_text = b"Configuration Options:\r\n\
        max_width <unsigned integer> Default: 100\r\nMaximum width of each line\r\n\r\n\
        unstable_features <boolean> Default: false\r\nEnables unstable features";
    let stable_text =
        b"Configuration Options:\nmax_width <unsigned integer> Default: 100\nMaximum width of each line";
    let schema = build_config_schema(nightly_text, stable_text).unwrap();
    assert_eq!(
        schema.schema_uri,
        b"http://json-schema.org/draft-07/schema#".to_vec()
    );
    assert_eq!(schema.title, b"rustfmt schema".to_vec());
    assert_eq!(schema.typ, Type::Object);
    assert_eq!(
        schema.description,
        b"https://rust-lang.github.io/rustfmt".to_vec()
    );
    assert_eq!(schema.properties.entries.len(), 2);
    let unstable = desc_string(get(&schema.properties, b"unstable_features").unwrap());
    assert!(unstable.contains("### Unstable"));
    let width = get(&schema.properties, b"max_width").unwrap();
    assert_eq!(width.typ, Some(Type::Integer));
    assert!(!desc_string(width).contains("### Unstable"));
}

#[test]
fn failing_run_produces_no_document() {
    let nightly_text = b"Configuration Options:\nfine <boolean> Default: true\nA fine option";
    let stable_text = b"Configuration Options:\nbroken ???\nA broken option";
    assert!(build_config_schema(nightly_text, stable_text).is_err());
}

#[test]
fn duplicate_keys_last_write_wins() {
    let text = b"Configuration Options:\n\
        twice <integer> Default: 1\nFirst copy\n\n\
        twice <integer> Default: 2\nSecond copy";
    let map = parse_output(text).unwrap();
    let item = get(&map, b"twice").unwrap();
    assert_eq!(item.default, Some(Value::Integer(2)));
}
