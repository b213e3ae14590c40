//! The boundary to the schema engine, the `cddl-cat` crate.
//!
//! Everything in this file is believed and not proved. The engine parses
//! schema text, decodes values and validates them; this crate takes its word
//! for each of the three, under a name, and converts what the engine hands
//! back into plain data of its own, variant by variant.
//!
//! One item here is of std and not of the engine: the text that `Debug`
//! writes for a `str`.
//!
//! The engine recurses along the nesting of a schema and of a value, as this
//! crate does along the nesting of a tree. What a call needs of the stack
//! grows with that depth, and no contract speaks of a call that exhausts it.

use vstd::prelude::*;
use cddl_cat::ivt;
use crate::node::{Ivt, IvtView, OccurLimit, Prelude, Scalar};
use crate::productive::productive_for;
use crate::rules::{entries_view, map_of, names_rule, sorted_by_name};

verus! {

/// The engine's node, `cddl_cat::ivt::Node`.
#[verifier::external_type_specification]
#[verifier::external_body]
pub struct ExNode(cddl_cat::ivt::Node);

/// The engine's literal, `cddl_cat::ivt::Literal`.
#[verifier::external_type_specification]
#[verifier::external_body]
pub struct ExLiteral(cddl_cat::ivt::Literal);

/// The engine's prelude type, `cddl_cat::ivt::PreludeType`.
#[verifier::external_type_specification]
#[verifier::external_body]
pub struct ExPreludeType(cddl_cat::ivt::PreludeType);

/// The engine's occurrence limit, `cddl_cat::ast::Occur`.
#[verifier::external_type_specification]
#[verifier::external_body]
pub struct ExOccur(cddl_cat::ast::Occur);

/// What `cddl_cat::flatten::flatten_from_str` makes of a schema text: the
/// rules in the order of their names, each with its tree, or the description
/// of the failure.
pub uninterp spec fn flattened(cddl: Seq<char>) -> Result<Seq<(Seq<char>, IvtView)>, Seq<char>>;

/// What `cddl_cat::validate_cbor_bytes` makes of a type name, a schema text
/// and a CBOR encoding: nothing, or the description of the failure.
pub uninterp spec fn cbor_outcome(typename: Seq<char>, cddl: Seq<char>, cbor: Seq<u8>) -> Result<(), Seq<char>>;

/// What `cddl_cat::validate_json_str` makes of a type name, a schema text and
/// a JSON text: nothing, or the description of the failure.
pub uninterp spec fn json_outcome(typename: Seq<char>, cddl: Seq<char>, json: Seq<char>) -> Result<(), Seq<char>>;

/// What `Debug` writes for a `str`: the text between double quotes, with a
/// double quote, a backslash and what does not print escaped.
pub uninterp spec fn debug_text(text: Seq<char>) -> Seq<char>;

/// The view of what a compilation gave.
pub open spec fn flatten_view(outcome: Result<Vec<(String, Ivt)>, String>) -> Result<
    Seq<(Seq<char>, IvtView)>,
    Seq<char>,
> {
    match outcome {
        Ok(entries) => Ok(entries_view(entries@)),
        Err(description) => Err(description@),
    }
}

/// The view of what a validation gave.
pub open spec fn verdict_view(outcome: Result<(), String>) -> Result<(), Seq<char>> {
    match outcome {
        Ok(_) => Ok(()),
        Err(description) => Err(description@),
    }
}

/// Whether a schema does not compile, or has rules that are productive for a
/// validation that starts at the rule of the given name. On such a schema the
/// engine comes to an end on that validation, whatever the value.
pub open spec fn schema_productive(typename: Seq<char>, cddl: Seq<char>) -> bool {
    flattened(cddl) matches Ok(entries) ==> productive_for(map_of(entries), typename)
}

/// The engine's description of a rule that is missing.
pub open spec fn missing_rule_text(name: Seq<char>) -> Seq<char> {
    "MissingRule("@ + name + ")"@
}

/// What both validations do before they look at the value: a schema that
/// does not compile is refused with the compilation's own description, and a
/// type name that the schema does not define is refused as a missing rule.
pub open spec fn starts_from_schema(typename: Seq<char>, cddl: Seq<char>, verdict: Result<(), Seq<char>>) -> bool {
    match flattened(cddl) {
        Err(description) => verdict == Err::<(), Seq<char>>(description),
        Ok(entries) => !names_rule(entries, typename) ==> verdict == Err::<(), Seq<char>>(
            missing_rule_text(typename),
        ),
    }
}

/// Converts the engine's literal, `cddl_cat::ivt::Literal`, variant by
/// variant. A float is kept by the bits that `to_bits` gives.
#[verifier::external_body]
fn literal_from_ivt(l: &cddl_cat::ivt::Literal) -> Scalar {
    match l {
        ivt::Literal::Bool(b) => Scalar::Bool(*b),
        ivt::Literal::Int(i) => Scalar::Int(*i),
        ivt::Literal::Float(f) => Scalar::Float(f.to_bits()),
        ivt::Literal::Text(t) => Scalar::Text(t.clone()),
        ivt::Literal::Bytes(b) => Scalar::Bytes(b.clone()),
    }
}

/// Converts the engine's prelude type, `cddl_cat::ivt::PreludeType`, variant
/// by variant.
#[verifier::external_body]
fn prelude_from_ivt(p: &cddl_cat::ivt::PreludeType) -> Prelude {
    match p {
        ivt::PreludeType::Any => Prelude::Any,
        ivt::PreludeType::Nil => Prelude::Nil,
        ivt::PreludeType::Bool => Prelude::Bool,
        ivt::PreludeType::Int => Prelude::Int,
        ivt::PreludeType::Uint => Prelude::Uint,
        ivt::PreludeType::Nint => Prelude::Nint,
        ivt::PreludeType::Float => Prelude::Float,
        ivt::PreludeType::Tstr => Prelude::Tstr,
        ivt::PreludeType::Bstr => Prelude::Bstr,
    }
}

/// Converts the engine's occurrence limit, `cddl_cat::ast::Occur`, variant by
/// variant.
#[verifier::external_body]
fn limit_from_ivt(limit: &cddl_cat::ast::Occur) -> OccurLimit {
    match limit {
        cddl_cat::ast::Occur::Optional => OccurLimit::Optional,
        cddl_cat::ast::Occur::ZeroOrMore => OccurLimit::ZeroOrMore,
        cddl_cat::ast::Occur::OneOrMore => OccurLimit::OneOrMore,
        cddl_cat::ast::Occur::Numbered(n, m) => OccurLimit::Numbered(*n, *m),
    }
}

/// Converts a list of the engine's nodes, one by one and in order.
#[verifier::external_body]
fn nodes_from_ivt(nodes: &Vec<cddl_cat::ivt::Node>) -> Vec<Ivt> {
    nodes.iter().map(node_from_ivt).collect()
}

/// Converts the engine's node, `cddl_cat::ivt::Node`, variant by variant. The
/// three variants that box their children are converted by
/// [`boxed_from_ivt`].
#[verifier::external_body]
fn node_from_ivt(n: &cddl_cat::ivt::Node) -> Ivt {
    match n {
        ivt::Node::Literal(l) => Ivt::Literal(literal_from_ivt(l)),
        ivt::Node::PreludeType(p) => Ivt::PreludeType(prelude_from_ivt(p)),
        ivt::Node::Rule(r) => Ivt::Rule(r.name.clone()),
        ivt::Node::Unwrap(r) => Ivt::Unwrap(r.name.clone()),
        ivt::Node::Choice(c) => Ivt::Choice(nodes_from_ivt(&c.options)),
        ivt::Node::Map(m) => Ivt::Mapping(nodes_from_ivt(&m.members)),
        ivt::Node::Array(a) => Ivt::Array(nodes_from_ivt(&a.members)),
        ivt::Node::Group(g) => Ivt::Group(nodes_from_ivt(&g.members)),
        _ => boxed_from_ivt(n),
    }
}

/// Converts the engine's node where it is a key/value pair, an occurrence or
/// a range; any other variant is converted by [`node_from_ivt`].
#[verifier::external_body]
fn boxed_from_ivt(n: &cddl_cat::ivt::Node) -> Ivt {
    match n {
        ivt::Node::KeyValue(kv) => {
            Ivt::KeyValue(Box::new(node_from_ivt(&kv.key)), Box::new(node_from_ivt(&kv.value)), kv.cut)
        },
        ivt::Node::Occur(o) => Ivt::Occur(limit_from_ivt(&o.limit), Box::new(node_from_ivt(&o.node))),
        ivt::Node::Range(r) => {
            Ivt::Range(Box::new(node_from_ivt(&r.start)), Box::new(node_from_ivt(&r.end)), r.inclusive)
        },
        _ => node_from_ivt(n),
    }
}

/// Calls `cddl_cat::flatten::flatten_from_str`. The engine parses the schema
/// text and flattens each rule into a tree. It collects the rules in a
/// `BTreeMap` by name, so they come out with names that strictly increase in
/// the order of `str`. A failure is given by what its `Display` writes. The
/// contract gives the result its name, and says of it that the names
/// strictly increase.
#[verifier::external_body]
pub(crate) fn engine_flatten(cddl: &str) -> (outcome: Result<Vec<(String, Ivt)>, String>)
    ensures
        flatten_view(outcome) == flattened(cddl@),
        flatten_view(outcome) matches Ok(entries) ==> sorted_by_name(entries),
{
    match cddl_cat::flatten::flatten_from_str(cddl) {
        Ok(rules) => Ok(rules.iter().map(|(name, node)| (name.clone(), node_from_ivt(node))).collect()),
        Err(e) => Err(format!("{}", e)),
    }
}

/// Calls `cddl_cat::validate_cbor_bytes`. The engine compiles the schema,
/// looks the type name up among its rules, decodes the bytes as CBOR and
/// validates the value. A failure is given by what its `Display` writes. The
/// contract gives the verdict its name, and says of it what the engine does
/// before it looks at the bytes. The engine follows references and repeats
/// occurrences as it meets them, and where the rules that it can reach from
/// the type name are not productive it may never come to an end: such a
/// call is left out.
#[verifier::external_body]
pub(crate) fn engine_validate_cbor(typename: &str, cddl: &str, cbor: &[u8]) -> (outcome: Result<(), String>)
    requires
        schema_productive(typename@, cddl@),
    ensures
        verdict_view(outcome) == cbor_outcome(typename@, cddl@, cbor@),
        starts_from_schema(typename@, cddl@, verdict_view(outcome)),
{
    match cddl_cat::validate_cbor_bytes(typename, cddl, cbor) {
        Ok(()) => Ok(()),
        Err(e) => Err(format!("{}", e)),
    }
}

/// Calls `cddl_cat::validate_json_str`. The engine compiles the schema, looks
/// the type name up among its rules, decodes the text as JSON and validates
/// the value. A failure is given by what its `Display` writes. The contract
/// gives the verdict its name, and says of it what the engine does before it
/// looks at the text. The engine follows references and repeats occurrences
/// as it meets them, and where the rules that it can reach from the type
/// name are not productive it may never come to an end: such a call is left
/// out.
#[verifier::external_body]
pub(crate) fn engine_validate_json(typename: &str, cddl: &str, json: &str) -> (outcome: Result<(), String>)
    requires
        schema_productive(typename@, cddl@),
    ensures
        verdict_view(outcome) == json_outcome(typename@, cddl@, json@),
        starts_from_schema(typename@, cddl@, verdict_view(outcome)),
{
    match cddl_cat::validate_json_str(typename, cddl, json) {
        Ok(()) => Ok(()),
        Err(e) => Err(format!("{}", e)),
    }
}

/// Calls `<str as Debug>::fmt`, through `format!`. The contract gives the
/// text its name, and says nothing else of it.
#[verifier::external_body]
pub(crate) fn text_debug(text: &str) -> (shown: String)
    ensures
        shown@ == debug_text(text@),
{
    format!("{:?}", text)
}

} // verus!
