//! The short texts by which a node is told: variant tags, prelude type names,
//! occurrence symbols.

use vstd::prelude::*;
use vstd::string::*;
use crate::render::write_decimal;
use crate::node::{Ivt, IvtView, OccurLimit, Prelude};

verus! {

/// The tag of a node's variant.
pub open spec fn kind_name(node: IvtView) -> Seq<char> {
    match node {
        IvtView::Literal(_) => "Literal"@,
        IvtView::PreludeType(_) => "PreludeType"@,
        IvtView::Rule(_) => "Rule"@,
        IvtView::Choice(_) => "Choice"@,
        IvtView::Mapping(_) => "Map"@,
        IvtView::Array(_) => "Array"@,
        IvtView::Group(_) => "Group"@,
        IvtView::KeyValue(_, _, _) => "KeyValue"@,
        IvtView::Occur(_, _) => "Occur"@,
        IvtView::Unwrap(_) => "Unwrap"@,
        IvtView::Range(_, _, _) => "Range"@,
    }
}

/// The name of a prelude type, as it is written in the enum.
pub open spec fn prelude_name(p: Prelude) -> Seq<char> {
    match p {
        Prelude::Any => "Any"@,
        Prelude::Nil => "Nil"@,
        Prelude::Bool => "Bool"@,
        Prelude::Int => "Int"@,
        Prelude::Uint => "Uint"@,
        Prelude::Nint => "Nint"@,
        Prelude::Float => "Float"@,
        Prelude::Tstr => "Tstr"@,
        Prelude::Bstr => "Bstr"@,
    }
}

/// The character of a decimal digit.
pub open spec fn digit_char(d: int) -> char {
    if d == 0 {
        '0'
    } else if d == 1 {
        '1'
    } else if d == 2 {
        '2'
    } else if d == 3 {
        '3'
    } else if d == 4 {
        '4'
    } else if d == 5 {
        '5'
    } else if d == 6 {
        '6'
    } else if d == 7 {
        '7'
    } else if d == 8 {
        '8'
    } else {
        '9'
    }
}

/// A natural number in decimal, without leading zeros.
pub open spec fn decimal(n: nat) -> Seq<char>
    decreases n,
{
    if n < 10 {
        seq![digit_char(n as int)]
    } else {
        decimal(n / 10).push(digit_char((n % 10) as int))
    }
}

/// The CDDL symbol of an occurrence: `?`, `*`, `+`, or the two bounds in
/// decimal around a `*`. The bounds from zero to the largest `usize` are
/// written `0*`.
pub open spec fn symbol_text(limit: OccurLimit) -> Seq<char> {
    match limit {
        OccurLimit::Optional => seq!['?'],
        OccurLimit::ZeroOrMore => seq!['*'],
        OccurLimit::OneOrMore => seq!['+'],
        OccurLimit::Numbered(n, m) => {
            if n == 0 && m == usize::MAX {
                seq!['0', '*']
            } else {
                decimal(n as nat) + seq!['*'] + decimal(m as nat)
            }
        },
    }
}

/// The CDDL symbol of an occurrence, as a string of its own.
pub fn occur_symbol(limit: &OccurLimit) -> (symbol: String)
    ensures
        symbol@ == symbol_text(*limit),
{
    proof {
        reveal_strlit("?");
        reveal_strlit("*");
        reveal_strlit("+");
    }
    let mut symbol = String::new();
    match limit {
        OccurLimit::Optional => {
            symbol.append("?");
        },
        OccurLimit::ZeroOrMore => {
            symbol.append("*");
        },
        OccurLimit::OneOrMore => {
            symbol.append("+");
        },
        OccurLimit::Numbered(n, m) => {
            write_decimal(*n as u128, &mut symbol);
            symbol.append("*");
            if !(*n == 0 && *m == usize::MAX) {
                write_decimal(*m as u128, &mut symbol);
            }
        },
    }
    assert(symbol@ =~= symbol_text(*limit));
    symbol
}

/// The tag of a node's variant, as a string of its own.
pub fn kind_string(node: &Ivt) -> (tag: String)
    ensures
        tag@ == kind_name(node@),
{
    match node {
        Ivt::Literal(_) => "Literal".to_owned(),
        Ivt::PreludeType(_) => "PreludeType".to_owned(),
        Ivt::Rule(_) => "Rule".to_owned(),
        Ivt::Choice(_) => "Choice".to_owned(),
        Ivt::Mapping(_) => "Map".to_owned(),
        Ivt::Array(_) => "Array".to_owned(),
        Ivt::Group(_) => "Group".to_owned(),
        Ivt::KeyValue(_, _, _) => "KeyValue".to_owned(),
        Ivt::Occur(_, _) => "Occur".to_owned(),
        Ivt::Unwrap(_) => "Unwrap".to_owned(),
        Ivt::Range(_, _, _) => "Range".to_owned(),
    }
}

/// The name of a prelude type, as a string slice.
pub fn prelude_str(p: Prelude) -> (name: &'static str)
    ensures
        name@ == prelude_name(p),
{
    match p {
        Prelude::Any => "Any",
        Prelude::Nil => "Nil",
        Prelude::Bool => "Bool",
        Prelude::Int => "Int",
        Prelude::Uint => "Uint",
        Prelude::Nint => "Nint",
        Prelude::Float => "Float",
        Prelude::Tstr => "Tstr",
        Prelude::Bstr => "Bstr",
    }
}

/// The name of a prelude type, as a string of its own.
pub fn prelude_string(p: Prelude) -> (name: String)
    ensures
        name@ == prelude_name(p),
{
    prelude_str(p).to_owned()
}

} // verus!
