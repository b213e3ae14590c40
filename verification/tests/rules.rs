use std::collections::BTreeMap;

use cddlcat::{CDDLRules, Error, IVTNode, Ivt, Prelude, Scalar};

fn integer() -> Ivt {
    Ivt::PreludeType(Prelude::Int)
}

fn text(s: &str) -> Ivt {
    Ivt::Literal(Scalar::Text(s.to_string()))
}

fn entry(name: &str, node: Ivt) -> (String, Ivt) {
    (name.to_string(), node)
}

fn laid_out(names: &[&str]) -> String {
    let map: BTreeMap<String, cddl_cat::ivt::Node> = names
        .iter()
        .map(|n| (n.to_string(), cddl_cat::ivt::Node::PreludeType(cddl_cat::ivt::PreludeType::Int)))
        .collect();
    format!("{:#?}", map)
}

#[test]
fn an_empty_set_holds_nothing() {
    let rules = CDDLRules::from_entries(vec![]);
    assert_eq!(rules.__getitem__("a"), Err(Error::KeyNotFound));
    assert_eq!(rules.__getitem__(""), Err(Error::KeyNotFound));
    assert_eq!(rules.__repr__(), "{}");
}

#[test]
fn every_entry_is_found_by_its_name() {
    let names = ["m", "a", "zz", "b", "", "ab", "B", "\u{e9}", "a-b", "a_b"];
    let entries: Vec<(String, Ivt)> = names.iter().map(|n| entry(n, text(n))).collect();
    let rules = CDDLRules::from_entries(entries);
    for name in names {
        assert_eq!(rules.__getitem__(name), Ok(IVTNode::from(text(name))), "{:?}", name);
    }
    for name in ["x", "aa", "A", "z", "zzz", "e", " "] {
        assert_eq!(rules.__getitem__(name), Err(Error::KeyNotFound), "{:?}", name);
    }
}

#[test]
fn the_later_of_two_rules_of_one_name_stands() {
    let rules = CDDLRules::from_entries(vec![
        entry("a", integer()),
        entry("b", text("first")),
        entry("a", text("second")),
        entry("a", text("third")),
    ]);
    assert_eq!(rules.__getitem__("a"), Ok(IVTNode::from(text("third"))));
    assert_eq!(rules.__getitem__("b"), Ok(IVTNode::from(text("first"))));
    assert_eq!(
        rules.__repr__(),
        "{\n    \"a\": Literal(\n        Text(\n            \"third\",\n        ),\n    ),\n    \
         \"b\": Literal(\n        Text(\n            \"first\",\n        ),\n    ),\n}"
    );
}

#[test]
fn rules_are_shown_in_the_order_of_their_names() {
    let rules = CDDLRules::from_entries(vec![
        entry("b", integer()),
        entry("ab", integer()),
        entry("a", integer()),
        entry("B", integer()),
        entry("c", integer()),
    ]);
    assert_eq!(rules.__repr__(), laid_out(&["B", "a", "ab", "b", "c"]));
    assert!(rules.__repr__().starts_with("{\n    \"B\": PreludeType(\n        Int,\n    ),\n    \"a\": "));
}

#[test]
fn the_order_of_names_is_that_of_strings() {
    let names = vec!["b", "a", "", "ab", "B", "\u{e9}", "z", "\u{10000}", "\u{ffff}", "aa", "a\u{0}", "q\"\\"];
    let entries: Vec<(String, Ivt)> = names.iter().map(|n| entry(n, integer())).collect();
    let rules = CDDLRules::from_entries(entries);
    assert_eq!(rules.__repr__(), laid_out(&names));
}

#[test]
fn lookup_hands_out_a_copy() {
    let rules = CDDLRules::from_entries(vec![entry("a", integer())]);
    let mut found = rules.__getitem__("a").unwrap();
    found.node = text("changed");
    assert_eq!(rules.__getitem__("a"), Ok(IVTNode::from(integer())));
}

#[test]
fn many_rules_are_all_found() {
    let mut entries = Vec::new();
    for i in 0..200u32 {
        let n = (i * 7919) % 200;
        entries.push(entry(&format!("rule{}", n), Ivt::Literal(Scalar::Int(n as i128))));
    }
    let rules = CDDLRules::from_entries(entries);
    for n in 0..200u32 {
        assert_eq!(
            rules.__getitem__(&format!("rule{}", n)),
            Ok(IVTNode::from(Ivt::Literal(Scalar::Int(n as i128))))
        );
    }
    assert_eq!(rules.__getitem__("rule200"), Err(Error::KeyNotFound));
}
