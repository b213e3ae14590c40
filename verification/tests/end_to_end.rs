use cddlcat::{flatten_from_str, validate_cbor_bytes, validate_json_str, Error, Scalar};

const SCHEMA: &str = "type1 = {a: int, b: text}";

// {"a": 1, "b": "x"}
const GOOD_CBOR: [u8; 8] = [0xa2, 0x61, 0x61, 0x01, 0x61, 0x62, 0x61, 0x78];

// {"a": "y", "b": "x"}
const BAD_CBOR: [u8; 9] = [0xa2, 0x61, 0x61, 0x61, 0x79, 0x61, 0x62, 0x61, 0x78];

fn message(result: Result<(), Error>) -> String {
    match result {
        Err(Error::ValidationFailure(failure)) => failure.message,
        other => panic!("not a validation failure: {:?}", other),
    }
}

#[test]
fn cbor_instance_validates() {
    assert_eq!(validate_cbor_bytes("type1", SCHEMA, &GOOD_CBOR), Ok(()));
}

#[test]
fn cbor_instance_of_wrong_type_fails() {
    let text = message(validate_cbor_bytes("type1", SCHEMA, &BAD_CBOR));
    assert!(text.starts_with("Mismatch("), "{}", text);
}

#[test]
fn cbor_that_does_not_decode_fails() {
    let text = message(validate_cbor_bytes("type1", SCHEMA, &[0xa2, 0x61]));
    assert!(text.starts_with("ValueError("), "{}", text);
}

#[test]
fn cbor_against_unknown_type_fails() {
    let text = message(validate_cbor_bytes("type9", SCHEMA, &GOOD_CBOR));
    assert_eq!(text, "MissingRule(type9)");
}

#[test]
fn cbor_against_malformed_schema_fails() {
    let flat = match flatten_from_str("type1 = {a: int") {
        Err(Error::CompileFailure(failure)) => failure.message,
        other => panic!("not a compile failure: {:?}", other),
    };
    let text = message(validate_cbor_bytes("type1", "type1 = {a: int", &GOOD_CBOR));
    assert_eq!(text, flat);
}

#[test]
fn json_instance_validates() {
    assert_eq!(validate_json_str("type1", SCHEMA, r#"{"a": 1, "b": "x"}"#), Ok(()));
}

#[test]
fn json_instance_of_wrong_type_fails() {
    let text = message(validate_json_str("type1", SCHEMA, r#"{"a": "y", "b": "x"}"#));
    assert!(text.starts_with("Mismatch("), "{}", text);
}

#[test]
fn json_that_does_not_decode_fails() {
    let text = message(validate_json_str("type1", SCHEMA, "{"));
    assert!(text.starts_with("ValueError("), "{}", text);
}

#[test]
fn json_against_unknown_type_fails() {
    let text = message(validate_json_str("nothing", SCHEMA, "1"));
    assert_eq!(text, "MissingRule(nothing)");
}

#[test]
fn compiled_rule_is_a_map_of_two() {
    let rules = flatten_from_str(SCHEMA).unwrap();
    let node = rules.__getitem__("type1").unwrap();
    assert_eq!(node.kind(), "Map");
    assert_eq!(node.__len__(), Ok(2));
}

#[test]
fn compiled_members_are_key_value_pairs() {
    let rules = flatten_from_str(SCHEMA).unwrap();
    let node = rules.__getitem__("type1").unwrap();
    let first = node.__getitem__(0).unwrap();
    assert_eq!(first.kind(), "KeyValue");
    let (key, value) = first.kv().unwrap();
    assert_eq!(key.kind(), "Literal");
    assert_eq!(key.value().unwrap(), Scalar::Text("a".to_string()));
    assert_eq!(value.kind(), "PreludeType");
    assert_eq!(value.value().unwrap(), Scalar::Text("Int".to_string()));
    let second = node.__getitem__(1).unwrap();
    let (key, value) = second.kv().unwrap();
    assert_eq!(key.value().unwrap(), Scalar::Text("b".to_string()));
    assert_eq!(value.value().unwrap(), Scalar::Text("Tstr".to_string()));
    assert!(matches!(node.__getitem__(2), Err(Error::IndexOutOfRange)));
}

#[test]
fn lookup_of_missing_rule_fails() {
    let rules = flatten_from_str(SCHEMA).unwrap();
    assert!(matches!(rules.__getitem__("missing"), Err(Error::KeyNotFound)));
}

#[test]
fn malformed_schema_does_not_compile() {
    assert!(matches!(flatten_from_str("type1 = {a: int, b: text"), Err(Error::CompileFailure(_))));
}

#[test]
fn every_declared_rule_is_found_with_its_kind() {
    let schema = "m = {a: int}\n\
                  a = [int, tstr]\n\
                  c = int / tstr\n\
                  l = 7\n\
                  p = bool\n\
                  r = m\n\
                  g = (x: int, y: int)\n\
                  n = 1..5\n\
                  u = [~a]\n";
    let rules = flatten_from_str(schema).unwrap();
    let expected = [
        ("m", "Map"),
        ("a", "Array"),
        ("c", "Choice"),
        ("l", "Literal"),
        ("p", "PreludeType"),
        ("r", "Rule"),
        ("g", "Group"),
        ("n", "Range"),
        ("u", "Array"),
    ];
    for (name, kind) in expected {
        assert_eq!(rules.__getitem__(name).unwrap().kind(), kind, "{}", name);
    }
}
