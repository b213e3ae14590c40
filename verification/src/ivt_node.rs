//! A node held for inspection, and the accessors that look into it.

use vstd::prelude::*;
use crate::error::{Error, ErrorView};
use crate::node::{lemma_node_views, node_views, Ivt, IvtView, Scalar, ScalarView};
use crate::render::{render, write_node};
use crate::text::{kind_name, kind_string, occur_symbol, prelude_name, prelude_string, symbol_text};

verus! {

/// The single value of a node, where its variant has one: the literal's own
/// value, the name of the prelude type, the name that a rule or an unwrapping
/// refers to, the symbol of an occurrence.
pub open spec fn value_of(node: IvtView) -> Option<ScalarView> {
    match node {
        IvtView::Literal(l) => Some(l),
        IvtView::PreludeType(p) => Some(ScalarView::Text(prelude_name(p))),
        IvtView::Rule(name) => Some(ScalarView::Text(name)),
        IvtView::Unwrap(name) => Some(ScalarView::Text(name)),
        IvtView::Occur(limit, _) => Some(ScalarView::Text(symbol_text(limit))),
        _ => None,
    }
}

/// The key and the value of a key/value pair.
pub open spec fn pair_of(node: IvtView) -> Option<(IvtView, IvtView)> {
    match node {
        IvtView::KeyValue(key, value, _) => Some((*key, *value)),
        _ => None,
    }
}

/// The ordered children of a choice, a map, an array or a group.
pub open spec fn members_of(node: IvtView) -> Option<Seq<IvtView>> {
    match node {
        IvtView::Choice(options) => Some(options),
        IvtView::Mapping(members) => Some(members),
        IvtView::Array(members) => Some(members),
        IvtView::Group(members) => Some(members),
        _ => None,
    }
}

/// The number of ordered children: an attribute failure where the node has
/// none.
pub open spec fn length_of(node: IvtView) -> Result<nat, ErrorView> {
    match members_of(node) {
        None => Err(ErrorView::AttributeAccess),
        Some(members) => Ok(members.len()),
    }
}

/// The child at an index that is not negative: an attribute failure where the
/// node has no ordered children, an index failure where it has no more than
/// `idx` of them.
pub open spec fn child_at(node: IvtView, idx: int) -> Result<IvtView, ErrorView> {
    match members_of(node) {
        None => Err(ErrorView::AttributeAccess),
        Some(members) => {
            if idx < members.len() {
                Ok(members[idx])
            } else {
                Err(ErrorView::IndexOutOfRange)
            }
        },
    }
}

/// Hands out a literal's value as a scalar of its own: the same variant,
/// the same content.
pub fn literal_value(lit: &Scalar) -> (value: Scalar)
    ensures
        value@ == lit@,
{
    lit.clone()
}

/// A node of a validation tree, owned by whoever inspects it. It is a copy:
/// nothing done to it reaches the tree that it was taken from.
#[derive(Debug, PartialEq, Eq)]
pub struct IVTNode {
    pub node: Ivt,
}

impl View for IVTNode {
    type V = IvtView;

    open spec fn view(&self) -> IvtView {
        self.node@
    }
}

impl From<Ivt> for IVTNode {
    fn from(node: Ivt) -> (wrapped: IVTNode) {
        IVTNode { node }
    }
}

impl vstd::std_specs::convert::FromSpecImpl<Ivt> for IVTNode {
    open spec fn obeys_from_spec() -> bool {
        true
    }

    open spec fn from_spec(node: Ivt) -> IVTNode {
        IVTNode { node }
    }
}

impl IVTNode {
    /// The ordered children, where the variant has them.
    fn members(&self) -> (found: Option<&Vec<Ivt>>)
        ensures
            (match found {
                Some(list) => members_of(self@) == Some(node_views(list@)),
                None => members_of(self@) is None,
            }),
    {
        match &self.node {
            Ivt::Choice(options) => Some(options),
            Ivt::Mapping(members) => Some(members),
            Ivt::Array(members) => Some(members),
            Ivt::Group(members) => Some(members),
            _ => None,
        }
    }

    /// The tag of the variant: `Literal`, `PreludeType`, `Rule`, `Choice`,
    /// `Map`, `Array`, `Group`, `KeyValue`, `Occur`, `Unwrap` or `Range`.
    pub fn kind(&self) -> (tag: String)
        ensures
            tag@ == kind_name(self@),
    {
        kind_string(&self.node)
    }

    /// The single value of the node, for the variants that have one. Of a
    /// choice, a map, an array, a group, a key/value pair or a range there is
    /// none, and the call fails with `AttributeAccess`.
    pub fn value(&self) -> (result: Result<Scalar, Error>)
        ensures
            (match value_of(self@) {
                Some(scalar) => result matches Ok(v) && v@ == scalar,
                None => result matches Err(e) && e@ == ErrorView::AttributeAccess,
            }),
    {
        match &self.node {
            Ivt::Literal(l) => Ok(literal_value(l)),
            Ivt::PreludeType(p) => Ok(Scalar::Text(prelude_string(*p))),
            Ivt::Rule(name) => Ok(Scalar::Text(name.clone())),
            Ivt::Unwrap(name) => Ok(Scalar::Text(name.clone())),
            Ivt::Occur(limit, _) => Ok(Scalar::Text(occur_symbol(limit))),
            _ => Err(Error::AttributeAccess),
        }
    }

    /// The key and the value of a key/value pair, each as a node of its own.
    /// On any other variant the call fails with `AttributeAccess`.
    pub fn kv(&self) -> (result: Result<(IVTNode, IVTNode), Error>)
        ensures
            (match pair_of(self@) {
                Some(pair) => result matches Ok(kv) && kv.0@ == pair.0 && kv.1@ == pair.1,
                None => result matches Err(e) && e@ == ErrorView::AttributeAccess,
            }),
    {
        if let Ivt::KeyValue(key, value, _) = &self.node {
            let k: &Ivt = key;
            let v: &Ivt = value;
            Ok((IVTNode { node: k.clone() }, IVTNode { node: v.clone() }))
        } else {
            Err(Error::AttributeAccess)
        }
    }

    /// The text of the node and its whole subtree, for diagnostics.
    pub fn __repr__(&self) -> (text: String)
        ensures
            text@ == render(self@),
    {
        let mut out = String::new();
        write_node(&self.node, &mut out);
        assert(out@ =~= render(self@));
        out
    }

    /// The number of ordered children of a choice, a map, an array or a
    /// group. On any other variant the call fails with `AttributeAccess`.
    pub fn __len__(&self) -> (result: Result<usize, Error>)
        ensures
            (match length_of(self@) {
                Ok(count) => result matches Ok(n) && n == count,
                Err(failure) => result matches Err(e) && e@ == failure,
            }),
    {
        match self.members() {
            Some(list) => {
                proof {
                    lemma_node_views(list@);
                }
                Ok(list.len())
            },
            None => Err(Error::AttributeAccess),
        }
    }

    /// The child at a zero-based index, as a node of its own. The call fails
    /// with `AttributeAccess` where the variant has no ordered children, and
    /// with `IndexOutOfRange` where the index is not below their number.
    /// Negative indices are not supported.
    pub fn __getitem__(&self, idx: isize) -> (result: Result<IVTNode, Error>)
        requires
            idx >= 0,
        ensures
            (match child_at(self@, idx as int) {
                Ok(child) => result matches Ok(found) && found@ == child,
                Err(failure) => result matches Err(e) && e@ == failure,
            }),
    {
        let idx: usize = idx as usize;
        match self.members() {
            None => Err(Error::AttributeAccess),
            Some(list) => {
                proof {
                    lemma_node_views(list@);
                }
                if idx < list.len() {
                    Ok(IVTNode { node: list[idx].clone() })
                } else {
                    Err(Error::IndexOutOfRange)
                }
            },
        }
    }
}

} // verus!
