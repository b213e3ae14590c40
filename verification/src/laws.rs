//! What holds of the accessors together, for every node and every rule set,
//! and of productive rules.

use vstd::prelude::*;
use crate::engine::flattened;
use crate::entry::compilation_of;
use crate::error::ErrorView;
use crate::ivt_node::{child_at, length_of, members_of, pair_of, value_of, IVTNode};
use crate::node::{Ivt, IvtView, ScalarView};
use crate::productive::{productive_for, settled, sound, tainted};
use crate::render::{pretty_rules, render};
use crate::rules::{lemma_sorted_entries_are_fixed, lookup_of, map_of, names_rule, sorted_by_name, CDDLRules};
use crate::text::kind_name;

verus! {

/// Whether `j` is the place of the last rule of the given name.
pub open spec fn is_last_named(entries: Seq<(Seq<char>, IvtView)>, name: Seq<char>, j: int) -> bool {
    &&& 0 <= j < entries.len()
    &&& entries[j].0 == name
    &&& forall|k: int| j < k < entries.len() ==> (#[trigger] entries[k]).0 != name
}

/// A name that is among the rules of a list is found in their mapping, and
/// what is found is the tree of the last rule of that name.
pub proof fn law_named_rule_is_found(entries: Seq<(Seq<char>, IvtView)>, name: Seq<char>)
    requires
        names_rule(entries, name),
    ensures
        exists|j: int| is_last_named(entries, name, j) && lookup_of(map_of(entries), name) == Ok::<IvtView, ErrorView>(entries[j].1),
    decreases entries.len(),
{
    let last = entries.len() - 1;
    let front = entries.drop_last();
    if entries[last].0 == name {
        assert(is_last_named(entries, name, last));
    } else {
        let i = choose|i: int| 0 <= i < entries.len() && #[trigger] entries[i].0 == name;
        assert(front[i].0 == name);
        law_named_rule_is_found(front, name);
        let j = choose|j: int| is_last_named(front, name, j) && lookup_of(map_of(front), name) == Ok::<IvtView, ErrorView>(front[j].1);
        assert forall|k: int| j < k < entries.len() implies (#[trigger] entries[k]).0 != name by {
            if k < last {
                assert(front[k].0 != name);
            }
        }
        assert(is_last_named(entries, name, j));
    }
}

/// Every rule that the engine gives for a schema is found under its name in
/// the compiled rule set. What is found is the tree that the engine gave for
/// that name, the last one where it gave several, and so has the tag of the
/// construct that the schema declares.
pub proof fn law_compiled_rule_is_found(cddl: Seq<char>, i: int)
    requires
        flattened(cddl) matches Ok(entries) && 0 <= i < entries.len(),
    ensures
        flattened(cddl) matches Ok(entries) && compilation_of(flattened(cddl)) matches Ok(mapping) && lookup_of(
            mapping,
            entries[i].0,
        ) matches Ok(tree) && exists|j: int| is_last_named(entries, entries[i].0, j) && tree == entries[j].1,
{
    let entries = flattened(cddl)->Ok_0;
    assert(entries[i].0 == entries[i].0);
    law_named_rule_is_found(entries, entries[i].0);
}

/// A node with ordered children has as many of them as it declares. Every
/// index below that number gives the child at that place, and the number
/// itself, as an index, is out of range.
pub proof fn law_children_are_indexed(node: IvtView, i: int)
    requires
        node is Choice || node is Mapping || node is Array || node is Group,
    ensures
        members_of(node) matches Some(members) && length_of(node) == Ok::<nat, ErrorView>(members.len()) && (0 <= i
            < members.len() ==> child_at(node, i) == Ok::<IvtView, ErrorView>(members[i])) && child_at(
            node,
            members.len() as int,
        ) == Err::<IvtView, ErrorView>(ErrorView::IndexOutOfRange),
{
}

/// A node without ordered children has no length and no child at any index:
/// both are attribute failures.
pub proof fn law_scalars_are_not_indexed(node: IvtView, i: int)
    requires
        !(node is Choice || node is Mapping || node is Array || node is Group),
    ensures
        length_of(node) == Err::<nat, ErrorView>(ErrorView::AttributeAccess),
        child_at(node, i) == Err::<IvtView, ErrorView>(ErrorView::AttributeAccess),
{
}

/// A key/value pair gives exactly its two nodes, the key and the value; no
/// other variant gives a pair.
pub proof fn law_pairs_come_from_key_values(node: IvtView)
    ensures
        node matches IvtView::KeyValue(key, value, _) ==> pair_of(node) == Some((*key, *value)),
        !(node is KeyValue) ==> pair_of(node) is None,
{
}

/// The value of a literal is the literal's own scalar: the same variant, the
/// same content.
pub proof fn law_literal_value_is_kept(literal: ScalarView)
    ensures
        value_of(IvtView::Literal(literal)) == Some(literal),
{
}

/// The tag and the text of a node depend on the node alone: two calls on the
/// same node give the same tag and the same text.
pub proof fn law_tag_and_text_are_stable(node: IvtView, tag1: Seq<char>, tag2: Seq<char>, text1: Seq<char>, text2: Seq<char>)
    requires
        tag1 == kind_name(node),
        tag2 == kind_name(node),
        text1 == render(node),
        text2 == render(node),
    ensures
        tag1 == tag2,
        text1 == text2,
{
}

/// A node that is wrapped for inspection is kept as it is: it has the tag
/// and the text of the node that it was made from.
pub proof fn law_wrapping_keeps_the_node(node: Ivt)
    ensures
        <IVTNode as vstd::std_specs::convert::FromSpec<Ivt>>::from_spec(node)@ == node@,
        kind_name(<IVTNode as vstd::std_specs::convert::FromSpec<Ivt>>::from_spec(node)@) == kind_name(node@),
        render(<IVTNode as vstd::std_specs::convert::FromSpec<Ivt>>::from_spec(node)@) == render(node@),
{
}

/// Two rule sets that map the same hold the same rules in the same order,
/// and so have the same text: two compilations of one schema are shown alike.
pub proof fn law_rule_sets_are_shown_alike(first: CDDLRules, second: CDDLRules)
    requires
        sorted_by_name(first.entries()),
        sorted_by_name(second.entries()),
        first@ == map_of(first.entries()),
        second@ == map_of(second.entries()),
        first@ == second@,
    ensures
        first.entries() == second.entries(),
        pretty_rules(first.entries()) == pretty_rules(second.entries()),
{
    lemma_sorted_entries_are_fixed(first.entries(), second.entries());
}

/// A rule that is nothing but a reference to itself never settles.
pub proof fn law_self_reference_never_settles(m: Map<Seq<char>, IvtView>, name: Seq<char>, rounds: nat)
    requires
        m.contains_key(name),
        m[name] == IvtView::Rule(name),
    ensures
        !settled(m, rounds).contains((name, false)),
    decreases rounds,
{
    if rounds > 0 {
        law_self_reference_never_settles(m, name, (rounds - 1) as nat);
    }
}

/// What is tainted stays tainted.
pub proof fn law_taint_stays(m: Map<Seq<char>, IvtView>, name: Seq<char>, rounds: nat)
    requires
        tainted(m, 0).contains(name),
    ensures
        tainted(m, rounds).contains(name),
    decreases rounds,
{
    if rounds > 0 {
        law_taint_stays(m, name, (rounds - 1) as nat);
    }
}

/// Rules are not productive for a validation that starts at a rule that is
/// nothing but a reference to itself.
pub proof fn law_self_reference_is_not_productive(m: Map<Seq<char>, IvtView>, name: Seq<char>)
    requires
        m.contains_key(name),
        m[name] == IvtView::Rule(name),
    ensures
        !productive_for(m, name),
{
    law_self_reference_never_settles(m, name, 2 * m.dom().len());
    assert(!sound(m, name));
    law_taint_stays(m, name, m.dom().len());
}

} // verus!
