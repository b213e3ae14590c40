//! The validation tree as plain data, and its mathematical view.

use vstd::prelude::*;

verus! {

/// One of the types that the CDDL prelude names.
#[derive(Clone, Copy, Debug, PartialEq, Eq, Structural)]
pub enum Prelude {
    Any,
    Nil,
    Bool,
    Int,
    Uint,
    Nint,
    Float,
    Tstr,
    Bstr,
}

/// How often a member may repeat.
#[derive(Clone, Copy, Debug, PartialEq, Eq, Structural)]
pub enum OccurLimit {
    Optional,
    ZeroOrMore,
    OneOrMore,
    Numbered(usize, usize),
}

/// A scalar: the value of a literal of a schema, and what a node hands out as
/// its value. A floating-point number is held by its IEEE 754
/// double-precision bit pattern.
#[derive(Debug, PartialEq, Eq)]
pub enum Scalar {
    Bool(bool),
    Int(i128),
    Float(u64),
    Text(String),
    Bytes(Vec<u8>),
}

/// What a [`Scalar`] is, mathematically.
pub enum ScalarView {
    Bool(bool),
    Int(int),
    Float(u64),
    Text(Seq<char>),
    Bytes(Seq<u8>),
}

impl View for Scalar {
    type V = ScalarView;

    open spec fn view(&self) -> ScalarView {
        match self {
            Scalar::Bool(b) => ScalarView::Bool(*b),
            Scalar::Int(i) => ScalarView::Int(*i as int),
            Scalar::Float(bits) => ScalarView::Float(*bits),
            Scalar::Text(t) => ScalarView::Text(t@),
            Scalar::Bytes(b) => ScalarView::Bytes(b@),
        }
    }
}

/// Any node of the validation tree.
#[derive(Debug, PartialEq, Eq)]
pub enum Ivt {
    Literal(Scalar),
    PreludeType(Prelude),
    Rule(String),
    Choice(Vec<Ivt>),
    Mapping(Vec<Ivt>),
    Array(Vec<Ivt>),
    Group(Vec<Ivt>),
    KeyValue(Box<Ivt>, Box<Ivt>, bool),
    Occur(OccurLimit, Box<Ivt>),
    Unwrap(String),
    Range(Box<Ivt>, Box<Ivt>, bool),
}

/// What a [`Ivt`] is, mathematically: the same tree, over sequences.
pub enum IvtView {
    Literal(ScalarView),
    PreludeType(Prelude),
    Rule(Seq<char>),
    Choice(Seq<IvtView>),
    Mapping(Seq<IvtView>),
    Array(Seq<IvtView>),
    Group(Seq<IvtView>),
    KeyValue(Box<IvtView>, Box<IvtView>, bool),
    Occur(OccurLimit, Box<IvtView>),
    Unwrap(Seq<char>),
    Range(Box<IvtView>, Box<IvtView>, bool),
}

/// The views of a list of nodes, in order.
pub open spec fn node_views(nodes: Seq<Ivt>) -> Seq<IvtView>
    decreases nodes,
{
    if nodes.len() == 0 {
        Seq::empty()
    } else {
        node_views(nodes.drop_last()).push(node_view(nodes.last()))
    }
}

/// The view of a node: the same variant, over the views of what it holds.
pub open spec fn node_view(node: Ivt) -> IvtView
    decreases node,
{
    match node {
        Ivt::Literal(l) => IvtView::Literal(l@),
        Ivt::PreludeType(p) => IvtView::PreludeType(p),
        Ivt::Rule(name) => IvtView::Rule(name@),
        Ivt::Choice(options) => IvtView::Choice(node_views(options@)),
        Ivt::Mapping(members) => IvtView::Mapping(node_views(members@)),
        Ivt::Array(members) => IvtView::Array(node_views(members@)),
        Ivt::Group(members) => IvtView::Group(node_views(members@)),
        Ivt::KeyValue(key, value, cut) => IvtView::KeyValue(
            Box::new(node_view(*key)),
            Box::new(node_view(*value)),
            cut,
        ),
        Ivt::Occur(limit, inner) => IvtView::Occur(limit, Box::new(node_view(*inner))),
        Ivt::Unwrap(name) => IvtView::Unwrap(name@),
        Ivt::Range(start, end, inclusive) => IvtView::Range(
            Box::new(node_view(*start)),
            Box::new(node_view(*end)),
            inclusive,
        ),
    }
}

impl View for Ivt {
    type V = IvtView;

    open spec fn view(&self) -> IvtView {
        node_view(*self)
    }
}

/// A list of nodes and the list of their views have the same length, and
/// agree place by place.
pub proof fn lemma_node_views(nodes: Seq<Ivt>)
    ensures
        node_views(nodes).len() == nodes.len(),
        forall|i: int| 0 <= i < nodes.len() ==> #[trigger] node_views(nodes)[i] == nodes[i]@,
    decreases nodes.len(),
{
    if nodes.len() > 0 {
        lemma_node_views(nodes.drop_last());
    }
}

impl Clone for Scalar {
    /// An independent copy with the same variant and content.
    fn clone(&self) -> (copy: Self)
        ensures
            copy@ == self@,
    {
        match self {
            Scalar::Bool(b) => Scalar::Bool(*b),
            Scalar::Int(i) => Scalar::Int(*i),
            Scalar::Float(bits) => Scalar::Float(*bits),
            Scalar::Text(t) => Scalar::Text(t.clone()),
            Scalar::Bytes(b) => {
                let bytes = b.clone();
                assert(bytes@ =~= b@);
                Scalar::Bytes(bytes)
            },
        }
    }
}

/// Copies a list of nodes, one by one and in order.
pub fn clone_nodes(nodes: &Vec<Ivt>) -> (copies: Vec<Ivt>)
    ensures
        node_views(copies@) == node_views(nodes@),
    decreases nodes,
{
    let mut copies: Vec<Ivt> = Vec::new();
    let mut i: usize = 0;
    while i < nodes.len()
        invariant
            i <= nodes.len(),
            copies.len() == i,
            forall|j: int| 0 <= j < i ==> copies[j]@ == nodes[j]@,
        decreases nodes.len() - i,
    {
        let copy = nodes[i].clone();
        copies.push(copy);
        i += 1;
    }
    proof {
        lemma_node_views(copies@);
        lemma_node_views(nodes@);
        assert(node_views(copies@) =~= node_views(nodes@));
    }
    copies
}

impl Clone for Ivt {
    /// An independent copy of the whole subtree, structurally identical to it.
    fn clone(&self) -> (copy: Self)
        ensures
            copy@ == self@,
        decreases self,
    {
        match self {
            Ivt::Literal(l) => Ivt::Literal(l.clone()),
            Ivt::PreludeType(p) => Ivt::PreludeType(*p),
            Ivt::Rule(name) => Ivt::Rule(name.clone()),
            Ivt::Choice(options) => Ivt::Choice(clone_nodes(options)),
            Ivt::Mapping(members) => Ivt::Mapping(clone_nodes(members)),
            Ivt::Array(members) => Ivt::Array(clone_nodes(members)),
            Ivt::Group(members) => Ivt::Group(clone_nodes(members)),
            Ivt::KeyValue(key, value, cut) => {
                let k: &Ivt = key;
                let v: &Ivt = value;
                Ivt::KeyValue(Box::new(k.clone()), Box::new(v.clone()), *cut)
            },
            Ivt::Occur(limit, node) => {
                let n: &Ivt = node;
                Ivt::Occur(*limit, Box::new(n.clone()))
            },
            Ivt::Unwrap(name) => Ivt::Unwrap(name.clone()),
            Ivt::Range(start, end, inclusive) => {
                let s: &Ivt = start;
                let e: &Ivt = end;
                Ivt::Range(Box::new(s.clone()), Box::new(e.clone()), *inclusive)
            },
        }
    }
}

} // verus!
