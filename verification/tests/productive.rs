use cddlcat::{
    flatten_from_str, is_schema_productive, try_validate_cbor_bytes, try_validate_json_str, CDDLRules, Error, Ivt,
    OccurLimit, Prelude, Scalar,
};

const NOT_PRODUCTIVE: [&str; 14] = [
    "a = a",
    "a = b\nb = c\nc = a",
    "a = int / b\nb = tstr / a",
    "a = (a)",
    "a = [~a]",
    "a = {~a}",
    "a = [b]\nb = (b, int)",
    "a = [int, ~b]\nb = [c]\nc = (~b)",
    "a = [* ()]",
    "a = [* (? int)]",
    "a = [+ (* int)]",
    "a = [2*3 (? int)]",
    "a = [* b]\nb = (? int, * tstr)",
    "a = {* b}\nb = (? x: int)",
];

const PRODUCTIVE: [&str; 16] = [
    "type1 = {a: int, b: text}",
    "a = int",
    "a = b\nb = c\nc = int",
    "a = [* a]",
    "a = [+ a]",
    "a = {* tstr => a}",
    "p = {name: tstr, ? friend: p}",
    "json = nil / bool / int / float / tstr / [* json] / {* tstr => json}",
    "a = [* b]\nb = (int, ? tstr)",
    "a = [* b]\nb = int / tstr",
    "a = [int, ~b]\nb = [tstr, * a]",
    "a = [? (? int)]",
    "a = [1*3 int, 0* tstr, + bool]",
    "a = missing",
    "a = [* missing]",
    "a = [* ~missing]",
];

#[test]
fn schemas_that_lead_back_or_repeat_what_takes_nothing_are_not_productive() {
    for schema in NOT_PRODUCTIVE {
        assert!(flatten_from_str(schema).is_ok(), "{:?}", schema);
        assert!(!is_schema_productive("a", schema), "{:?}", schema);
        assert!(!flatten_from_str(schema).unwrap().is_productive_for("a"), "{:?}", schema);
    }
}

#[test]
fn schemas_that_step_into_the_value_are_productive() {
    for schema in PRODUCTIVE {
        assert!(flatten_from_str(schema).is_ok(), "{:?}", schema);
        let name = schema.split(' ').next().unwrap();
        assert!(is_schema_productive(name, schema), "{:?}", schema);
        assert!(flatten_from_str(schema).unwrap().is_productive_for(name), "{:?}", schema);
    }
}

#[test]
fn a_schema_that_does_not_compile_counts_as_productive() {
    assert!(is_schema_productive("a", "a = {"));
}

#[test]
fn the_engine_is_not_called_on_a_schema_that_is_not_productive() {
    for schema in NOT_PRODUCTIVE {
        assert_eq!(try_validate_json_str("a", schema, "[]"), None, "{:?}", schema);
        assert_eq!(try_validate_cbor_bytes("a", schema, &[0x80]), None, "{:?}", schema);
    }
}

#[test]
fn the_engine_comes_to_an_end_on_productive_schemas() {
    let values = ["1", "[]", "[1]", "[[], [[]]]", "{}", "{\"name\": \"x\"}", "[1, \"x\", 2]", "\"x\"", "null"];
    for schema in PRODUCTIVE {
        let name = schema.split(' ').next().unwrap();
        for value in values {
            assert!(try_validate_json_str(name, schema, value).is_some(), "{:?} {:?}", schema, value);
        }
        assert!(try_validate_cbor_bytes(name, schema, &[0x80]).is_some(), "{:?}", schema);
    }
}

#[test]
fn values_are_validated_against_schemas_that_refer_to_themselves() {
    let tree = "a = [* a]";
    assert_eq!(try_validate_json_str("a", tree, "[[], [[]], [[], []]]"), Some(Ok(())));
    assert!(matches!(
        try_validate_json_str("a", tree, "[[], 1]"),
        Some(Err(Error::ValidationFailure(_)))
    ));
    let person = "p = {name: tstr, ? friend: p}";
    assert_eq!(
        try_validate_json_str("p", person, r#"{"name": "x", "friend": {"name": "y"}}"#),
        Some(Ok(()))
    );
    assert!(matches!(
        try_validate_json_str("p", person, r#"{"name": "x", "friend": {"name": 1}}"#),
        Some(Err(Error::ValidationFailure(_)))
    ));
}

#[test]
fn a_checked_validation_gives_what_the_engine_gives() {
    let schema = "type1 = {a: int, b: text}";
    assert_eq!(try_validate_cbor_bytes("type1", schema, &[0xa2, 0x61, 0x61, 0x01, 0x61, 0x62, 0x61, 0x78]), Some(Ok(())));
    assert_eq!(try_validate_json_str("type1", schema, r#"{"a": 1, "b": "x"}"#), Some(Ok(())));
    match try_validate_json_str("type1", schema, r#"{"a": "y", "b": "x"}"#) {
        Some(Err(Error::ValidationFailure(failure))) => {
            let theirs = cddl_cat::validate_json_str("type1", schema, r#"{"a": "y", "b": "x"}"#).unwrap_err();
            assert_eq!(failure.message, format!("{}", theirs));
        }
        other => panic!("not a validation failure: {:?}", other),
    }
    match try_validate_cbor_bytes("other", schema, &[0x01]) {
        Some(Err(Error::ValidationFailure(failure))) => assert_eq!(failure.message, "MissingRule(other)"),
        other => panic!("not a validation failure: {:?}", other),
    }
    match try_validate_json_str("type1", "type1 = {", "1") {
        Some(Err(Error::ValidationFailure(failure))) => {
            let theirs = cddl_cat::flatten::flatten_from_str("type1 = {").unwrap_err();
            assert_eq!(failure.message, format!("{}", theirs));
        }
        other => panic!("not a validation failure: {:?}", other),
    }
}

fn rule(name: &str) -> Ivt {
    Ivt::Rule(name.to_string())
}

fn integer() -> Ivt {
    Ivt::PreludeType(Prelude::Int)
}

fn set(entries: Vec<(&str, Ivt)>) -> CDDLRules {
    CDDLRules::from_entries(entries.into_iter().map(|(n, t)| (n.to_string(), t)).collect())
}

#[test]
fn an_empty_rule_set_is_productive() {
    assert!(set(vec![]).is_productive_for("a"));
}

#[test]
fn references_must_come_to_an_end() {
    assert!(set(vec![("a", rule("b")), ("b", integer())]).is_productive_for("a"));
    assert!(set(vec![("a", rule("b"))]).is_productive_for("a"));
    assert!(!set(vec![("a", rule("a"))]).is_productive_for("a"));
    assert!(!set(vec![("a", rule("b")), ("b", rule("a"))]).is_productive_for("a"));
    assert!(!set(vec![("z", integer()), ("a", rule("b")), ("b", Ivt::Choice(vec![integer(), rule("a")]))]).is_productive_for("a"));
    assert!(!set(vec![("a", Ivt::Range(Box::new(rule("a")), Box::new(integer()), true))]).is_productive_for("a"));
    assert!(!set(vec![("a", Ivt::Occur(OccurLimit::Optional, Box::new(rule("a"))))]).is_productive_for("a"));
    assert!(!set(vec![("a", Ivt::Group(vec![integer(), rule("a")]))]).is_productive_for("a"));
}

#[test]
fn a_reference_below_a_step_into_the_value_may_lead_back() {
    assert!(set(vec![("a", Ivt::Array(vec![rule("a")]))]).is_productive_for("a"));
    assert!(set(vec![("a", Ivt::Mapping(vec![rule("a")]))]).is_productive_for("a"));
    assert!(set(vec![("a", Ivt::KeyValue(Box::new(rule("a")), Box::new(rule("a")), true))]).is_productive_for("a"));
}

#[test]
fn an_unwrapping_leads_into_the_members() {
    assert!(!set(vec![("a", Ivt::Array(vec![Ivt::Unwrap("a".to_string())]))]).is_productive_for("a"));
    assert!(!set(vec![("a", Ivt::Mapping(vec![Ivt::Unwrap("a".to_string())]))]).is_productive_for("a"));
    assert!(set(vec![
        ("a", Ivt::Array(vec![Ivt::Unwrap("b".to_string())])),
        ("b", Ivt::Array(vec![rule("a")])),
    ])
    .is_productive_for("a"));
    assert!(!set(vec![
        ("a", Ivt::Group(vec![Ivt::Unwrap("b".to_string())])),
        ("b", Ivt::Array(vec![rule("a")])),
    ])
    .is_productive_for("a"));
    assert!(set(vec![("a", Ivt::Array(vec![Ivt::Unwrap("b".to_string())])), ("b", integer())]).is_productive_for("a"));
}

#[test]
fn what_is_repeated_must_take_something() {
    let occur = |limit: OccurLimit, inner: Ivt| Ivt::Array(vec![Ivt::Occur(limit, Box::new(inner))]);
    let empty = || Ivt::Group(vec![]);
    let optional = || Ivt::Occur(OccurLimit::Optional, Box::new(integer()));
    let text = || Ivt::Literal(Scalar::Text("x".to_string()));
    for limit in [OccurLimit::ZeroOrMore, OccurLimit::OneOrMore, OccurLimit::Numbered(0, 2), OccurLimit::Numbered(5, 9)] {
        assert!(set(vec![("a", occur(limit, integer()))]).is_productive_for("a"));
        assert!(set(vec![("a", occur(limit, text()))]).is_productive_for("a"));
        assert!(set(vec![("a", occur(limit, Ivt::Group(vec![optional(), integer()])))]).is_productive_for("a"));
        assert!(set(vec![("a", occur(limit, Ivt::Choice(vec![text(), integer()])))]).is_productive_for("a"));
        assert!(set(vec![("a", occur(limit, Ivt::Occur(OccurLimit::OneOrMore, Box::new(integer()))))]).is_productive_for("a"));
        assert!(set(vec![("a", occur(limit, Ivt::Occur(OccurLimit::Numbered(1, 1), Box::new(integer()))))]).is_productive_for("a"));
        assert!(!set(vec![("a", occur(limit, empty()))]).is_productive_for("a"));
        assert!(!set(vec![("a", occur(limit, optional()))]).is_productive_for("a"));
        assert!(!set(vec![("a", occur(limit, Ivt::Group(vec![optional(), optional()])))]).is_productive_for("a"));
        assert!(!set(vec![("a", occur(limit, Ivt::Choice(vec![integer(), optional()])))]).is_productive_for("a"));
        assert!(!set(vec![("a", occur(limit, Ivt::Occur(OccurLimit::ZeroOrMore, Box::new(integer()))))]).is_productive_for("a"));
        assert!(!set(vec![("a", occur(limit, Ivt::Occur(OccurLimit::Numbered(0, 7), Box::new(integer()))))]).is_productive_for("a"));
        assert!(set(vec![("a", occur(limit, rule("b"))), ("b", integer())]).is_productive_for("a"));
        assert!(!set(vec![("a", occur(limit, rule("b"))), ("b", optional())]).is_productive_for("a"));
        assert!(set(vec![("a", occur(limit, Ivt::Unwrap("b".to_string()))), ("b", Ivt::Array(vec![integer()]))]).is_productive_for("a"));
        assert!(!set(vec![("a", occur(limit, Ivt::Unwrap("b".to_string()))), ("b", Ivt::Array(vec![]))]).is_productive_for("a"));
    }
    for limit in [OccurLimit::Optional, OccurLimit::Numbered(0, 1), OccurLimit::Numbered(1, 1), OccurLimit::Numbered(3, 0)] {
        assert!(set(vec![("a", occur(limit, empty()))]).is_productive_for("a"));
        assert!(set(vec![("a", occur(limit, optional()))]).is_productive_for("a"));
    }
}

#[test]
fn occurrences_are_looked_for_at_every_depth() {
    let endless = Ivt::Occur(OccurLimit::ZeroOrMore, Box::new(Ivt::Group(vec![])));
    let wrap: Vec<fn(Ivt) -> Ivt> = vec![
        |t| Ivt::Array(vec![t]),
        |t| Ivt::Mapping(vec![t]),
        |t| Ivt::Group(vec![t]),
        |t| Ivt::Choice(vec![t]),
        |t| Ivt::KeyValue(Box::new(t), Box::new(Ivt::PreludeType(Prelude::Int)), false),
        |t| Ivt::KeyValue(Box::new(Ivt::PreludeType(Prelude::Int)), Box::new(t), false),
        |t| Ivt::Occur(OccurLimit::Optional, Box::new(t)),
        |t| Ivt::Range(Box::new(t), Box::new(Ivt::PreludeType(Prelude::Int)), true),
        |t| Ivt::Range(Box::new(Ivt::PreludeType(Prelude::Int)), Box::new(t), true),
    ];
    for outer in &wrap {
        for inner in &wrap {
            assert!(!set(vec![("a", outer(inner(endless.clone())))]).is_productive_for("a"));
            assert!(set(vec![("a", outer(inner(integer())))]).is_productive_for("a"));
        }
    }
}

#[test]
fn long_chains_of_references_settle() {
    let mut entries: Vec<(String, Ivt)> = Vec::new();
    for i in 0..60 {
        entries.push((format!("r{:03}", i), Ivt::Rule(format!("r{:03}", i + 1))));
    }
    entries.push(("r060".to_string(), integer()));
    assert!(CDDLRules::from_entries(entries.clone()).is_productive_for("r000"));
    entries.reverse();
    assert!(CDDLRules::from_entries(entries.clone()).is_productive_for("r000"));
    entries.push(("r060".to_string(), Ivt::Rule("r000".to_string())));
    for i in 0..=60 {
        assert!(!CDDLRules::from_entries(entries.clone()).is_productive_for(&format!("r{:03}", i)));
    }
}

#[test]
fn long_chains_of_unwrappings_settle() {
    let mut entries: Vec<(String, Ivt)> = Vec::new();
    for i in 0..40 {
        entries.push((format!("r{:03}", i), Ivt::Array(vec![Ivt::Unwrap(format!("r{:03}", i + 1))])));
    }
    entries.push(("r040".to_string(), Ivt::Array(vec![integer()])));
    assert!(CDDLRules::from_entries(entries.clone()).is_productive_for("r000"));
    entries.push(("r040".to_string(), Ivt::Array(vec![Ivt::Unwrap("r000".to_string())])));
    assert!(!CDDLRules::from_entries(entries).is_productive_for("r000"));
}

#[test]
fn only_what_a_validation_can_reach_must_be_productive() {
    let schema = "a = int\nb = b";
    assert!(is_schema_productive("a", schema));
    assert!(!is_schema_productive("b", schema));
    assert!(is_schema_productive("c", schema));
    assert_eq!(try_validate_json_str("a", schema, "1"), Some(Ok(())));
    assert!(matches!(try_validate_json_str("a", schema, "\"x\""), Some(Err(Error::ValidationFailure(_)))));
    assert_eq!(try_validate_cbor_bytes("a", schema, &[0x01]), Some(Ok(())));
    assert_eq!(try_validate_json_str("b", schema, "1"), None);
    match try_validate_json_str("c", schema, "1") {
        Some(Err(Error::ValidationFailure(failure))) => assert_eq!(failure.message, "MissingRule(c)"),
        other => panic!("not a validation failure: {:?}", other),
    }
}

#[test]
fn what_is_reached_through_any_reference_must_be_productive() {
    let wrap: Vec<fn(Ivt) -> Ivt> = vec![
        |t| t,
        |t| Ivt::Array(vec![integer(), t]),
        |t| Ivt::Mapping(vec![t]),
        |t| Ivt::Group(vec![t, integer()]),
        |t| Ivt::Choice(vec![integer(), t]),
        |t| Ivt::KeyValue(Box::new(t), Box::new(integer()), false),
        |t| Ivt::KeyValue(Box::new(integer()), Box::new(t), false),
        |t| Ivt::Occur(OccurLimit::Optional, Box::new(t)),
        |t| Ivt::Range(Box::new(t), Box::new(integer()), true),
        |t| Ivt::Range(Box::new(integer()), Box::new(t), true),
    ];
    for outer in &wrap {
        for reference in [rule("b"), Ivt::Unwrap("b".to_string())] {
            let rules = set(vec![
                ("a", outer(reference.clone())),
                ("b", Ivt::Array(vec![rule("c")])),
                ("c", rule("c")),
                ("d", integer()),
                ("e", rule("d")),
            ]);
            assert!(!rules.is_productive_for("a"));
            assert!(!rules.is_productive_for("b"));
            assert!(!rules.is_productive_for("c"));
            assert!(rules.is_productive_for("d"));
            assert!(rules.is_productive_for("e"));
            assert!(rules.is_productive_for("f"));
        }
    }
}

#[test]
fn a_rule_that_is_not_reached_does_no_harm() {
    let rules = set(vec![
        ("a", Ivt::Array(vec![rule("b")])),
        ("b", integer()),
        ("x", Ivt::Array(vec![Ivt::Occur(OccurLimit::ZeroOrMore, Box::new(Ivt::Group(vec![])))])),
        ("y", rule("x")),
        ("z", rule("z")),
    ]);
    assert!(rules.is_productive_for("a"));
    assert!(rules.is_productive_for("b"));
    assert!(!rules.is_productive_for("x"));
    assert!(!rules.is_productive_for("y"));
    assert!(!rules.is_productive_for("z"));
}

#[test]
fn an_occurrence_with_a_small_bound_is_held_to_the_same() {
    let schema = "a = [2*3 (? int)]";
    assert!(!is_schema_productive("a", schema));
    assert_eq!(try_validate_json_str("a", schema, "[]"), None);
}
