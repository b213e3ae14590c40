use cddlcat::{
    compile_result, err_adapter, flatten_from_str, validation_result, Error, IVTNode, Ivt, OccurLimit, Prelude,
    Scalar, ValidateError,
};

fn tree(schema: &str, name: &str) -> Ivt {
    flatten_from_str(schema).unwrap().__getitem__(name).unwrap().node
}

fn integer() -> Ivt {
    Ivt::PreludeType(Prelude::Int)
}

fn text(s: &str) -> Ivt {
    Ivt::Literal(Scalar::Text(s.to_string()))
}

fn boxed(node: Ivt) -> Box<Ivt> {
    Box::new(node)
}

#[test]
fn literals_compile_to_their_scalars() {
    assert_eq!(tree("a = 7", "a"), Ivt::Literal(Scalar::Int(7)));
    assert_eq!(tree("a = -7", "a"), Ivt::Literal(Scalar::Int(-7)));
    assert_eq!(tree("a = 1.5", "a"), Ivt::Literal(Scalar::Float(1.5f64.to_bits())));
    assert_eq!(tree("a = -2.25", "a"), Ivt::Literal(Scalar::Float((-2.25f64).to_bits())));
    assert_eq!(tree("a = \"text\"", "a"), text("text"));
    assert_eq!(tree("a = h'0102ff'", "a"), Ivt::Literal(Scalar::Bytes(vec![1, 2, 255])));
    assert_eq!(tree("a = true", "a"), Ivt::Literal(Scalar::Bool(true)));
    assert_eq!(tree("a = false", "a"), Ivt::Literal(Scalar::Bool(false)));
}

#[test]
fn a_compiled_float_gives_the_float_back() {
    match IVTNode::from(tree("a = 0.1", "a")).value() {
        Ok(Scalar::Float(bits)) => assert_eq!(f64::from_bits(bits), 0.1),
        other => panic!("not a float: {:?}", other),
    }
}

#[test]
fn prelude_names_compile_to_prelude_types() {
    let names = [
        ("any", Prelude::Any),
        ("nil", Prelude::Nil),
        ("null", Prelude::Nil),
        ("bool", Prelude::Bool),
        ("int", Prelude::Int),
        ("uint", Prelude::Uint),
        ("nint", Prelude::Nint),
        ("float", Prelude::Float),
        ("float64", Prelude::Float),
        ("tstr", Prelude::Tstr),
        ("text", Prelude::Tstr),
        ("bstr", Prelude::Bstr),
        ("bytes", Prelude::Bstr),
    ];
    for (name, prelude) in names {
        assert_eq!(tree(&format!("a = {}", name), "a"), Ivt::PreludeType(prelude), "{}", name);
    }
}

#[test]
fn references_compile_to_rules_and_unwrappings() {
    assert_eq!(tree("a = b\nb = int", "a"), Ivt::Rule("b".to_string()));
    assert_eq!(tree("a = [~b]\nb = [int]", "a"), Ivt::Array(vec![Ivt::Unwrap("b".to_string())]));
}

#[test]
fn a_map_compiles_to_its_members() {
    assert_eq!(
        tree("m = {a: int, ? \"b\" => tstr, * tstr => any, c ^ => nil}", "m"),
        Ivt::Mapping(vec![
            Ivt::KeyValue(boxed(text("a")), boxed(integer()), true),
            Ivt::Occur(
                OccurLimit::Optional,
                boxed(Ivt::KeyValue(boxed(text("b")), boxed(Ivt::PreludeType(Prelude::Tstr)), false)),
            ),
            Ivt::Occur(
                OccurLimit::ZeroOrMore,
                boxed(Ivt::KeyValue(
                    boxed(Ivt::PreludeType(Prelude::Tstr)),
                    boxed(Ivt::PreludeType(Prelude::Any)),
                    false,
                )),
            ),
            Ivt::KeyValue(boxed(Ivt::Rule("c".to_string())), boxed(Ivt::PreludeType(Prelude::Nil)), true),
        ])
    );
}

#[test]
fn an_array_compiles_to_its_members() {
    assert_eq!(
        tree("a = [1*3 int, 0* tstr, + bool, 2*5 uint, *4 nint, 7* float, ? any, * bstr]", "a"),
        Ivt::Array(vec![
            Ivt::Occur(OccurLimit::Numbered(1, 3), boxed(integer())),
            Ivt::Occur(OccurLimit::Numbered(0, usize::MAX), boxed(Ivt::PreludeType(Prelude::Tstr))),
            Ivt::Occur(OccurLimit::OneOrMore, boxed(Ivt::PreludeType(Prelude::Bool))),
            Ivt::Occur(OccurLimit::Numbered(2, 5), boxed(Ivt::PreludeType(Prelude::Uint))),
            Ivt::Occur(OccurLimit::Numbered(0, 4), boxed(Ivt::PreludeType(Prelude::Nint))),
            Ivt::Occur(OccurLimit::Numbered(7, usize::MAX), boxed(Ivt::PreludeType(Prelude::Float))),
            Ivt::Occur(OccurLimit::Optional, boxed(Ivt::PreludeType(Prelude::Any))),
            Ivt::Occur(OccurLimit::ZeroOrMore, boxed(Ivt::PreludeType(Prelude::Bstr))),
        ])
    );
}

#[test]
fn the_symbols_of_compiled_occurrences_are_those_of_the_schema() {
    let node = IVTNode::from(tree("a = [1*3 int, 0* tstr, + bool, ? any, * bstr, 7* float]", "a"));
    let symbols: Vec<Scalar> = (0..6).map(|i| node.__getitem__(i).unwrap().value().unwrap()).collect();
    let expected: Vec<Scalar> = ["1*3", "0*", "+", "?", "*", "7*18446744073709551615"]
        .iter()
        .map(|s| Scalar::Text(s.to_string()))
        .collect();
    assert_eq!(symbols, expected);
}

#[test]
fn a_choice_compiles_to_its_options_in_order() {
    assert_eq!(
        tree("c = int / \"x\" / other", "c"),
        Ivt::Choice(vec![integer(), text("x"), Ivt::Rule("other".to_string())])
    );
}

#[test]
fn a_group_compiles_to_its_members() {
    assert_eq!(
        tree("g = (x: int, y: uint)", "g"),
        Ivt::Group(vec![
            Ivt::KeyValue(boxed(text("x")), boxed(integer()), true),
            Ivt::KeyValue(boxed(text("y")), boxed(Ivt::PreludeType(Prelude::Uint)), true),
        ])
    );
}

#[test]
fn a_range_compiles_to_its_bounds() {
    assert_eq!(
        tree("n = 1..5", "n"),
        Ivt::Range(boxed(Ivt::Literal(Scalar::Int(1))), boxed(Ivt::Literal(Scalar::Int(5))), true)
    );
    assert_eq!(
        tree("n = 1...5", "n"),
        Ivt::Range(boxed(Ivt::Literal(Scalar::Int(1))), boxed(Ivt::Literal(Scalar::Int(5))), false)
    );
    assert_eq!(
        tree("n = 1.5..2.5", "n"),
        Ivt::Range(
            boxed(Ivt::Literal(Scalar::Float(1.5f64.to_bits()))),
            boxed(Ivt::Literal(Scalar::Float(2.5f64.to_bits()))),
            true,
        )
    );
}

#[test]
fn the_later_of_two_declarations_of_one_name_stands() {
    assert_eq!(tree("a = int\na = tstr", "a"), Ivt::PreludeType(Prelude::Tstr));
}

#[test]
fn a_compile_failure_carries_the_description_of_the_engine() {
    let schema = "type1 = {a: int, b: text";
    let theirs = format!("{}", cddl_cat::flatten::flatten_from_str(schema).unwrap_err());
    assert!(!theirs.is_empty());
    match flatten_from_str(schema) {
        Err(Error::CompileFailure(failure)) => assert_eq!(failure.message, theirs),
        other => panic!("not a compile failure: {:?}", other),
    }
}

#[test]
fn an_unsupported_prelude_type_does_not_compile() {
    match flatten_from_str("a = number") {
        Err(Error::CompileFailure(failure)) => assert_eq!(failure.message, "Unsupported prelude type 'number'"),
        other => panic!("not a compile failure: {:?}", other),
    }
}

#[test]
fn schemas_that_are_not_cddl_do_not_compile() {
    for schema in ["a = {", "a = [int", "a = }", "= int", "a int", "a = (x: int"] {
        assert!(matches!(flatten_from_str(schema), Err(Error::CompileFailure(_))), "{:?}", schema);
    }
}

#[test]
fn the_failure_keeps_the_description_as_it_is() {
    assert_eq!(err_adapter("Mismatch(expected int)".to_string()).message, "Mismatch(expected int)");
    assert_eq!(err_adapter(String::new()), ValidateError { message: String::new() });
}

#[test]
fn a_verdict_becomes_the_result_of_a_validation() {
    assert_eq!(validation_result(Ok(())), Ok(()));
    assert_eq!(
        validation_result(Err("no".to_string())),
        Err(Error::ValidationFailure(ValidateError { message: "no".to_string() }))
    );
}

#[test]
fn what_the_engine_gave_becomes_the_result_of_a_compilation() {
    match compile_result(Err("bad".to_string())) {
        Err(Error::CompileFailure(failure)) => assert_eq!(failure.message, "bad"),
        other => panic!("not a compile failure: {:?}", other),
    }
    let rules = compile_result(Ok(vec![("b".to_string(), integer()), ("a".to_string(), text("x"))])).unwrap();
    assert_eq!(rules.__getitem__("a"), Ok(IVTNode::from(text("x"))));
    assert_eq!(rules.__getitem__("b"), Ok(IVTNode::from(integer())));
    assert_eq!(rules.__getitem__("c"), Err(Error::KeyNotFound));
}
