//! Whether the engine comes to an end on a schema.
//!
//! The engine validates a value by walking the tree of a rule beside it. At a
//! key/value pair, at a map and at an array it steps into the value, and the
//! value is finite. Everywhere else it stays where it is in the value: at a
//! choice, a group, an occurrence and a range, and when it follows a
//! reference to the tree of another rule. An unwrapping leads into the
//! members of the map or array that it names, without a step into the value.
//! So the engine comes to an end where no rule leads back to itself before a
//! step into the value, and where what an occurrence repeats cannot match and
//! take nothing. This is asked only of the rules that a validation can reach
//! from the rule that it starts at.
//!
//! An occurrence that allows more than one match is asked to repeat what
//! takes something, however small its upper bound: the engine would come to
//! an end on a small bound, and no bound is small for every use.

use vstd::prelude::*;
use crate::node::{lemma_node_views, node_views, Ivt, IvtView, OccurLimit};
use crate::rules::{
    entries_view, find_rule, lemma_map_of_len, lemma_map_of_names, lemma_map_of_sorted, map_of,
    sorted_by_name,
};

verus! {

/// The least number of times that an occurrence asks for.
pub open spec fn lower_of(limit: OccurLimit) -> nat {
    match limit {
        OccurLimit::Optional => 0,
        OccurLimit::ZeroOrMore => 0,
        OccurLimit::OneOrMore => 1,
        OccurLimit::Numbered(n, _) => n as nat,
    }
}

/// The greatest number of times that an occurrence allows.
pub open spec fn upper_of(limit: OccurLimit) -> nat {
    match limit {
        OccurLimit::Optional => 1,
        OccurLimit::ZeroOrMore => usize::MAX as nat,
        OccurLimit::OneOrMore => usize::MAX as nat,
        OccurLimit::Numbered(_, m) => m as nat,
    }
}

/// The members that an unwrapping of this tree leads into.
pub open spec fn unwrapped(tree: IvtView) -> Seq<IvtView> {
    match tree {
        IvtView::Mapping(members) => members,
        IvtView::Array(members) => members,
        _ => Seq::empty(),
    }
}

/// Whether every reference that the engine can follow from this tree,
/// before it steps into the value, leads to a rule that is missing or to a
/// place in `done`. A place is a rule's name, and whether the rule is entered
/// by an unwrapping.
pub open spec fn refers_within(
    m: Map<Seq<char>, IvtView>,
    done: Set<(Seq<char>, bool)>,
    tree: IvtView,
) -> bool
    decreases tree,
{
    match tree {
        IvtView::Rule(name) => !m.contains_key(name) || done.contains((name, false)),
        IvtView::Unwrap(name) => !m.contains_key(name) || done.contains((name, true)),
        IvtView::Choice(options) => all_refer_within(m, done, options),
        IvtView::Group(members) => all_refer_within(m, done, members),
        IvtView::Occur(_, inner) => refers_within(m, done, *inner),
        IvtView::Range(start, end, _) => refers_within(m, done, *start) && refers_within(m, done, *end),
        _ => true,
    }
}

/// Whether [`refers_within`] holds of every tree of a list.
pub open spec fn all_refer_within(
    m: Map<Seq<char>, IvtView>,
    done: Set<(Seq<char>, bool)>,
    trees: Seq<IvtView>,
) -> bool
    decreases trees,
{
    if trees.len() == 0 {
        true
    } else {
        all_refer_within(m, done, trees.drop_last()) && refers_within(m, done, trees.last())
    }
}

/// Whether this tree, as a member of a map or an array, takes something
/// whenever it matches, as far as `known` tells of the rules that it refers
/// to.
pub open spec fn consumes(m: Map<Seq<char>, IvtView>, known: Set<(Seq<char>, bool)>, tree: IvtView) -> bool
    decreases tree,
{
    match tree {
        IvtView::Rule(name) => !m.contains_key(name) || known.contains((name, false)),
        IvtView::Unwrap(name) => !m.contains_key(name) || known.contains((name, true)),
        IvtView::Choice(options) => all_consume(m, known, options),
        IvtView::Group(members) => some_consumes(m, known, members),
        IvtView::Occur(limit, inner) => lower_of(limit) >= 1 && consumes(m, known, *inner),
        _ => true,
    }
}

/// Whether every tree of a list [`consumes`].
pub open spec fn all_consume(m: Map<Seq<char>, IvtView>, known: Set<(Seq<char>, bool)>, trees: Seq<IvtView>) -> bool
    decreases trees,
{
    if trees.len() == 0 {
        true
    } else {
        all_consume(m, known, trees.drop_last()) && consumes(m, known, trees.last())
    }
}

/// Whether some tree of a list [`consumes`].
pub open spec fn some_consumes(m: Map<Seq<char>, IvtView>, known: Set<(Seq<char>, bool)>, trees: Seq<IvtView>) -> bool
    decreases trees,
{
    if trees.len() == 0 {
        false
    } else {
        some_consumes(m, known, trees.drop_last()) || consumes(m, known, trees.last())
    }
}

/// Whether every occurrence in this tree, at any depth, allows no more than
/// one match or repeats something that [`consumes`].
pub open spec fn repeats_end(m: Map<Seq<char>, IvtView>, known: Set<(Seq<char>, bool)>, tree: IvtView) -> bool
    decreases tree,
{
    match tree {
        IvtView::Choice(options) => all_repeats_end(m, known, options),
        IvtView::Mapping(members) => all_repeats_end(m, known, members),
        IvtView::Array(members) => all_repeats_end(m, known, members),
        IvtView::Group(members) => all_repeats_end(m, known, members),
        IvtView::KeyValue(key, value, _) => repeats_end(m, known, *key) && repeats_end(m, known, *value),
        IvtView::Occur(limit, inner) => (upper_of(limit) <= 1 || consumes(m, known, *inner)) && repeats_end(
            m,
            known,
            *inner,
        ),
        IvtView::Range(start, end, _) => repeats_end(m, known, *start) && repeats_end(m, known, *end),
        _ => true,
    }
}

/// Whether [`repeats_end`] holds of every tree of a list.
pub open spec fn all_repeats_end(
    m: Map<Seq<char>, IvtView>,
    known: Set<(Seq<char>, bool)>,
    trees: Seq<IvtView>,
) -> bool
    decreases trees,
{
    if trees.len() == 0 {
        true
    } else {
        all_repeats_end(m, known, trees.drop_last()) && repeats_end(m, known, trees.last())
    }
}

/// Whether all that the engine can reach from a place, before it steps into
/// the value, is missing or in `done`.
pub open spec fn place_refers_within(
    m: Map<Seq<char>, IvtView>,
    done: Set<(Seq<char>, bool)>,
    place: (Seq<char>, bool),
) -> bool {
    if place.1 {
        all_refer_within(m, done, unwrapped(m[place.0]))
    } else {
        refers_within(m, done, m[place.0])
    }
}

/// Whether what is entered at a place takes something whenever it matches.
/// An unwrapping of what is neither a map nor an array never matches.
pub open spec fn place_consumes(
    m: Map<Seq<char>, IvtView>,
    known: Set<(Seq<char>, bool)>,
    place: (Seq<char>, bool),
) -> bool {
    if place.1 {
        match m[place.0] {
            IvtView::Mapping(members) => some_consumes(m, known, members),
            IvtView::Array(members) => some_consumes(m, known, members),
            _ => true,
        }
    } else {
        consumes(m, known, m[place.0])
    }
}

/// One more round of settling: a place settles once all that it leads to has
/// settled.
pub open spec fn settle_step(m: Map<Seq<char>, IvtView>, before: Set<(Seq<char>, bool)>) -> Set<(Seq<char>, bool)> {
    Set::new(
        |place: (Seq<char>, bool)|
            before.contains(place) || (m.contains_key(place.0) && place_refers_within(m, before, place)),
    )
}

/// One more round of finding out which places consume.
pub open spec fn consume_step(m: Map<Seq<char>, IvtView>, before: Set<(Seq<char>, bool)>) -> Set<(Seq<char>, bool)> {
    Set::new(
        |place: (Seq<char>, bool)|
            before.contains(place) || (m.contains_key(place.0) && place_consumes(m, before, place)),
    )
}

/// The places that have settled after so many rounds. From a settled place
/// the engine cannot come back to it without a step into the value.
pub open spec fn settled(m: Map<Seq<char>, IvtView>, rounds: nat) -> Set<(Seq<char>, bool)>
    decreases rounds,
{
    if rounds == 0 {
        Set::empty()
    } else {
        settle_step(m, settled(m, (rounds - 1) as nat))
    }
}

/// The places that are known to consume after so many rounds.
pub open spec fn consuming(m: Map<Seq<char>, IvtView>, rounds: nat) -> Set<(Seq<char>, bool)>
    decreases rounds,
{
    if rounds == 0 {
        Set::empty()
    } else {
        consume_step(m, consuming(m, (rounds - 1) as nat))
    }
}

/// Whether a rule is sound in itself: after two rounds for each rule it has
/// settled, entered either way, and every occurrence in its tree repeats
/// what is known to consume.
pub open spec fn sound(m: Map<Seq<char>, IvtView>, name: Seq<char>) -> bool {
    let rounds = 2 * m.dom().len();
    &&& settled(m, rounds).contains((name, false))
    &&& settled(m, rounds).contains((name, true))
    &&& repeats_end(m, consuming(m, rounds), m[name])
}

/// Whether this tree refers, at any depth, to a rule whose name is marked.
pub open spec fn mentions(m: Map<Seq<char>, IvtView>, marked: Set<Seq<char>>, tree: IvtView) -> bool
    decreases tree,
{
    match tree {
        IvtView::Rule(name) => m.contains_key(name) && marked.contains(name),
        IvtView::Unwrap(name) => m.contains_key(name) && marked.contains(name),
        IvtView::Choice(options) => some_mention(m, marked, options),
        IvtView::Mapping(members) => some_mention(m, marked, members),
        IvtView::Array(members) => some_mention(m, marked, members),
        IvtView::Group(members) => some_mention(m, marked, members),
        IvtView::KeyValue(key, value, _) => mentions(m, marked, *key) || mentions(m, marked, *value),
        IvtView::Occur(_, inner) => mentions(m, marked, *inner),
        IvtView::Range(start, end, _) => mentions(m, marked, *start) || mentions(m, marked, *end),
        _ => false,
    }
}

/// Whether some tree of a list [`mentions`] a marked rule.
pub open spec fn some_mention(m: Map<Seq<char>, IvtView>, marked: Set<Seq<char>>, trees: Seq<IvtView>) -> bool
    decreases trees,
{
    if trees.len() == 0 {
        false
    } else {
        some_mention(m, marked, trees.drop_last()) || mentions(m, marked, trees.last())
    }
}

/// One more round of tainting: a rule is tainted once it refers to a tainted
/// rule.
pub open spec fn taint_step(m: Map<Seq<char>, IvtView>, before: Set<Seq<char>>) -> Set<Seq<char>> {
    Set::new(|name: Seq<char>| before.contains(name) || (m.contains_key(name) && mentions(m, before, m[name])))
}

/// The rules that are tainted after so many rounds: at first the rules that
/// are not sound in themselves, then the rules that refer to those, and so
/// on. A validation that starts at a tainted rule can reach a rule that is
/// not sound.
pub open spec fn tainted(m: Map<Seq<char>, IvtView>, rounds: nat) -> Set<Seq<char>>
    decreases rounds,
{
    if rounds == 0 {
        Set::new(|name: Seq<char>| m.contains_key(name) && !sound(m, name))
    } else {
        taint_step(m, tainted(m, (rounds - 1) as nat))
    }
}

/// Whether the rules are productive for a validation that starts at the
/// rule of the given name: the rule is missing, or after one round for each
/// rule it is not tainted.
pub open spec fn productive_for(m: Map<Seq<char>, IvtView>, name: Seq<char>) -> bool {
    !m.contains_key(name) || !tainted(m, m.dom().len()).contains(name)
}

/// Whether a list of marks says of each rule whether its name is in the set.
pub open spec fn name_marks(entries: Seq<(Seq<char>, IvtView)>, flags: Seq<bool>, names: Set<Seq<char>>) -> bool {
    &&& flags.len() == entries.len()
    &&& forall|i: int| 0 <= i < entries.len() ==> flags[i] == names.contains((#[trigger] entries[i]).0)
}

/// Whether two lists of marks, one for each way to enter a rule, say of each
/// rule which of its places are in the set.
pub open spec fn marks(
    entries: Seq<(Seq<char>, IvtView)>,
    plain: Seq<bool>,
    pierced: Seq<bool>,
    places: Set<(Seq<char>, bool)>,
) -> bool {
    &&& plain.len() == entries.len()
    &&& pierced.len() == entries.len()
    &&& forall|i: int|
        0 <= i < entries.len() ==> plain[i] == places.contains(((#[trigger] entries[i]).0, false)) && pierced[i]
            == places.contains((entries[i].0, true))
}

/// Whether the rule of the given name is missing, or its place is marked.
fn place_marked(
    rules: &Vec<(String, Ivt)>,
    plain: &Vec<bool>,
    pierced: &Vec<bool>,
    Ghost(places): Ghost<Set<(Seq<char>, bool)>>,
    name: &str,
    unwrapping: bool,
) -> (marked: bool)
    requires
        sorted_by_name(entries_view(rules@)),
        marks(entries_view(rules@), plain@, pierced@, places),
    ensures
        marked == (!map_of(entries_view(rules@)).contains_key(name@) || places.contains((name@, unwrapping))),
{
    let ghost entries = entries_view(rules@);
    proof {
        lemma_map_of_names(entries, name@);
    }
    match find_rule(rules, name) {
        Some(pos) => {
            assert(entries[pos as int].0 == name@);
            if unwrapping {
                pierced[pos]
            } else {
                plain[pos]
            }
        },
        None => true,
    }
}

/// Whether all that the engine can reach from this tree, before it steps
/// into the value, is missing or marked.
fn tree_refers_within(
    rules: &Vec<(String, Ivt)>,
    plain: &Vec<bool>,
    pierced: &Vec<bool>,
    Ghost(done): Ghost<Set<(Seq<char>, bool)>>,
    tree: &Ivt,
) -> (ok: bool)
    requires
        sorted_by_name(entries_view(rules@)),
        marks(entries_view(rules@), plain@, pierced@, done),
    ensures
        ok == refers_within(map_of(entries_view(rules@)), done, tree@),
    decreases tree,
{
    match tree {
        Ivt::Rule(name) => place_marked(rules, plain, pierced, Ghost(done), name.as_str(), false),
        Ivt::Unwrap(name) => place_marked(rules, plain, pierced, Ghost(done), name.as_str(), true),
        Ivt::Choice(options) => list_refers_within(rules, plain, pierced, Ghost(done), options),
        Ivt::Group(members) => list_refers_within(rules, plain, pierced, Ghost(done), members),
        Ivt::Occur(_, inner) => tree_refers_within(rules, plain, pierced, Ghost(done), inner),
        Ivt::Range(start, end, _) => {
            let first = tree_refers_within(rules, plain, pierced, Ghost(done), start);
            let second = tree_refers_within(rules, plain, pierced, Ghost(done), end);
            first && second
        },
        _ => true,
    }
}

/// Whether [`tree_refers_within`] holds of every tree of a list.
fn list_refers_within(
    rules: &Vec<(String, Ivt)>,
    plain: &Vec<bool>,
    pierced: &Vec<bool>,
    Ghost(done): Ghost<Set<(Seq<char>, bool)>>,
    trees: &Vec<Ivt>,
) -> (ok: bool)
    requires
        sorted_by_name(entries_view(rules@)),
        marks(entries_view(rules@), plain@, pierced@, done),
    ensures
        ok == all_refer_within(map_of(entries_view(rules@)), done, node_views(trees@)),
    decreases trees,
{
    let ghost m = map_of(entries_view(rules@));
    let ghost views = node_views(trees@);
    let mut ok = true;
    let mut i: usize = 0;
    proof {
        lemma_node_views(trees@);
        assert(views.take(0) =~= Seq::empty());
    }
    while i < trees.len()
        invariant
            sorted_by_name(entries_view(rules@)),
            marks(entries_view(rules@), plain@, pierced@, done),
            m == map_of(entries_view(rules@)),
            views == node_views(trees@),
            views.len() == trees.len(),
            forall|j: int| 0 <= j < trees.len() ==> #[trigger] views[j] == trees[j]@,
            i <= trees.len(),
            ok == all_refer_within(m, done, views.take(i as int)),
        decreases trees.len() - i,
    {
        let this = tree_refers_within(rules, plain, pierced, Ghost(done), &trees[i]);
        proof {
            let next = views.take(i + 1);
            assert(next.drop_last() =~= views.take(i as int));
            assert(next.last() == views[i as int]);
        }
        ok = ok && this;
        i += 1;
    }
    assert(views.take(i as int) =~= views);
    ok
}

/// Whether this tree takes something whenever it matches, as far as the
/// marks tell of the rules that it refers to.
fn tree_consumes(
    rules: &Vec<(String, Ivt)>,
    plain: &Vec<bool>,
    pierced: &Vec<bool>,
    Ghost(known): Ghost<Set<(Seq<char>, bool)>>,
    tree: &Ivt,
) -> (ok: bool)
    requires
        sorted_by_name(entries_view(rules@)),
        marks(entries_view(rules@), plain@, pierced@, known),
    ensures
        ok == consumes(map_of(entries_view(rules@)), known, tree@),
    decreases tree,
{
    match tree {
        Ivt::Rule(name) => place_marked(rules, plain, pierced, Ghost(known), name.as_str(), false),
        Ivt::Unwrap(name) => place_marked(rules, plain, pierced, Ghost(known), name.as_str(), true),
        Ivt::Choice(options) => list_consumes(rules, plain, pierced, Ghost(known), options, true),
        Ivt::Group(members) => list_consumes(rules, plain, pierced, Ghost(known), members, false),
        Ivt::Occur(limit, inner) => {
            let at_least_once = match limit {
                OccurLimit::Optional => false,
                OccurLimit::ZeroOrMore => false,
                OccurLimit::OneOrMore => true,
                OccurLimit::Numbered(n, _) => *n >= 1,
            };
            let inside = tree_consumes(rules, plain, pierced, Ghost(known), inner);
            at_least_once && inside
        },
        _ => true,
    }
}

/// Whether every tree of a list consumes, where `all` is set, and whether
/// some tree of it consumes, where it is not.
fn list_consumes(
    rules: &Vec<(String, Ivt)>,
    plain: &Vec<bool>,
    pierced: &Vec<bool>,
    Ghost(known): Ghost<Set<(Seq<char>, bool)>>,
    trees: &Vec<Ivt>,
    all: bool,
) -> (ok: bool)
    requires
        sorted_by_name(entries_view(rules@)),
        marks(entries_view(rules@), plain@, pierced@, known),
    ensures
        all ==> ok == all_consume(map_of(entries_view(rules@)), known, node_views(trees@)),
        !all ==> ok == some_consumes(map_of(entries_view(rules@)), known, node_views(trees@)),
    decreases trees,
{
    let ghost m = map_of(entries_view(rules@));
    let ghost views = node_views(trees@);
    let mut every = true;
    let mut some = false;
    let mut i: usize = 0;
    proof {
        lemma_node_views(trees@);
        assert(views.take(0) =~= Seq::empty());
    }
    while i < trees.len()
        invariant
            sorted_by_name(entries_view(rules@)),
            marks(entries_view(rules@), plain@, pierced@, known),
            m == map_of(entries_view(rules@)),
            views == node_views(trees@),
            views.len() == trees.len(),
            forall|j: int| 0 <= j < trees.len() ==> #[trigger] views[j] == trees[j]@,
            i <= trees.len(),
            every == all_consume(m, known, views.take(i as int)),
            some == some_consumes(m, known, views.take(i as int)),
        decreases trees.len() - i,
    {
        let this = tree_consumes(rules, plain, pierced, Ghost(known), &trees[i]);
        proof {
            let next = views.take(i + 1);
            assert(next.drop_last() =~= views.take(i as int));
            assert(next.last() == views[i as int]);
        }
        every = every && this;
        some = some || this;
        i += 1;
    }
    assert(views.take(i as int) =~= views);
    if all {
        every
    } else {
        some
    }
}

/// Whether every occurrence in this tree allows no more than one match or
/// repeats something that consumes.
fn tree_repeats_end(
    rules: &Vec<(String, Ivt)>,
    plain: &Vec<bool>,
    pierced: &Vec<bool>,
    Ghost(known): Ghost<Set<(Seq<char>, bool)>>,
    tree: &Ivt,
) -> (ok: bool)
    requires
        sorted_by_name(entries_view(rules@)),
        marks(entries_view(rules@), plain@, pierced@, known),
    ensures
        ok == repeats_end(map_of(entries_view(rules@)), known, tree@),
    decreases tree,
{
    match tree {
        Ivt::Choice(options) => list_repeats_end(rules, plain, pierced, Ghost(known), options),
        Ivt::Mapping(members) => list_repeats_end(rules, plain, pierced, Ghost(known), members),
        Ivt::Array(members) => list_repeats_end(rules, plain, pierced, Ghost(known), members),
        Ivt::Group(members) => list_repeats_end(rules, plain, pierced, Ghost(known), members),
        Ivt::KeyValue(key, value, _) => {
            let first = tree_repeats_end(rules, plain, pierced, Ghost(known), key);
            let second = tree_repeats_end(rules, plain, pierced, Ghost(known), value);
            first && second
        },
        Ivt::Occur(limit, inner) => {
            let at_most_once = match limit {
                OccurLimit::Optional => true,
                OccurLimit::ZeroOrMore => false,
                OccurLimit::OneOrMore => false,
                OccurLimit::Numbered(_, m) => *m <= 1,
            };
            let takes = tree_consumes(rules, plain, pierced, Ghost(known), inner);
            let inside = tree_repeats_end(rules, plain, pierced, Ghost(known), inner);
            (at_most_once || takes) && inside
        },
        Ivt::Range(start, end, _) => {
            let first = tree_repeats_end(rules, plain, pierced, Ghost(known), start);
            let second = tree_repeats_end(rules, plain, pierced, Ghost(known), end);
            first && second
        },
        _ => true,
    }
}

/// Whether [`tree_repeats_end`] holds of every tree of a list.
fn list_repeats_end(
    rules: &Vec<(String, Ivt)>,
    plain: &Vec<bool>,
    pierced: &Vec<bool>,
    Ghost(known): Ghost<Set<(Seq<char>, bool)>>,
    trees: &Vec<Ivt>,
) -> (ok: bool)
    requires
        sorted_by_name(entries_view(rules@)),
        marks(entries_view(rules@), plain@, pierced@, known),
    ensures
        ok == all_repeats_end(map_of(entries_view(rules@)), known, node_views(trees@)),
    decreases trees,
{
    let ghost m = map_of(entries_view(rules@));
    let ghost views = node_views(trees@);
    let mut ok = true;
    let mut i: usize = 0;
    proof {
        lemma_node_views(trees@);
        assert(views.take(0) =~= Seq::empty());
    }
    while i < trees.len()
        invariant
            sorted_by_name(entries_view(rules@)),
            marks(entries_view(rules@), plain@, pierced@, known),
            m == map_of(entries_view(rules@)),
            views == node_views(trees@),
            views.len() == trees.len(),
            forall|j: int| 0 <= j < trees.len() ==> #[trigger] views[j] == trees[j]@,
            i <= trees.len(),
            ok == all_repeats_end(m, known, views.take(i as int)),
        decreases trees.len() - i,
    {
        let this = tree_repeats_end(rules, plain, pierced, Ghost(known), &trees[i]);
        proof {
            let next = views.take(i + 1);
            assert(next.drop_last() =~= views.take(i as int));
            assert(next.last() == views[i as int]);
        }
        ok = ok && this;
        i += 1;
    }
    assert(views.take(i as int) =~= views);
    ok
}

/// As many marks as there are rules, none of them set.
fn no_marks(rules: &Vec<(String, Ivt)>) -> (flags: Vec<bool>)
    ensures
        flags.len() == rules.len(),
        forall|i: int| 0 <= i < flags.len() ==> !flags[i],
{
    let mut flags: Vec<bool> = Vec::new();
    let mut i: usize = 0;
    while i < rules.len()
        invariant
            i <= rules.len(),
            flags.len() == i,
            forall|j: int| 0 <= j < i ==> !flags[j],
        decreases rules.len() - i,
    {
        flags.push(false);
        i += 1;
    }
    flags
}

/// One round of settling, over all rules.
fn settle_round(
    rules: &Vec<(String, Ivt)>,
    plain: &Vec<bool>,
    pierced: &Vec<bool>,
    Ghost(before): Ghost<Set<(Seq<char>, bool)>>,
) -> (next: (Vec<bool>, Vec<bool>))
    requires
        sorted_by_name(entries_view(rules@)),
        marks(entries_view(rules@), plain@, pierced@, before),
    ensures
        marks(entries_view(rules@), next.0@, next.1@, settle_step(map_of(entries_view(rules@)), before)),
{
    let ghost entries = entries_view(rules@);
    let ghost m = map_of(entries);
    let ghost after = settle_step(m, before);
    let mut next_plain: Vec<bool> = Vec::new();
    let mut next_pierced: Vec<bool> = Vec::new();
    let mut i: usize = 0;
    while i < rules.len()
        invariant
            entries == entries_view(rules@),
            m == map_of(entries),
            after == settle_step(m, before),
            sorted_by_name(entries),
            marks(entries, plain@, pierced@, before),
            i <= rules.len(),
            next_plain.len() == i,
            next_pierced.len() == i,
            forall|j: int|
                0 <= j < i ==> next_plain[j] == after.contains(((#[trigger] entries[j]).0, false))
                    && next_pierced[j] == after.contains((entries[j].0, true)),
        decreases rules.len() - i,
    {
        let tree = &rules[i].1;
        proof {
            lemma_map_of_sorted(entries, i as int);
            assert(entries[i as int].1 == tree@);
        }
        let direct = tree_refers_within(rules, plain, pierced, Ghost(before), tree);
        let inside = match tree {
            Ivt::Mapping(members) => list_refers_within(rules, plain, pierced, Ghost(before), members),
            Ivt::Array(members) => list_refers_within(rules, plain, pierced, Ghost(before), members),
            _ => true,
        };
        next_plain.push(plain[i] || direct);
        next_pierced.push(pierced[i] || inside);
        i += 1;
    }
    (next_plain, next_pierced)
}

/// One round of finding out which rules consume, over all rules.
fn consume_round(
    rules: &Vec<(String, Ivt)>,
    plain: &Vec<bool>,
    pierced: &Vec<bool>,
    Ghost(before): Ghost<Set<(Seq<char>, bool)>>,
) -> (next: (Vec<bool>, Vec<bool>))
    requires
        sorted_by_name(entries_view(rules@)),
        marks(entries_view(rules@), plain@, pierced@, before),
    ensures
        marks(entries_view(rules@), next.0@, next.1@, consume_step(map_of(entries_view(rules@)), before)),
{
    let ghost entries = entries_view(rules@);
    let ghost m = map_of(entries);
    let ghost after = consume_step(m, before);
    let mut next_plain: Vec<bool> = Vec::new();
    let mut next_pierced: Vec<bool> = Vec::new();
    let mut i: usize = 0;
    while i < rules.len()
        invariant
            entries == entries_view(rules@),
            m == map_of(entries),
            after == consume_step(m, before),
            sorted_by_name(entries),
            marks(entries, plain@, pierced@, before),
            i <= rules.len(),
            next_plain.len() == i,
            next_pierced.len() == i,
            forall|j: int|
                0 <= j < i ==> next_plain[j] == after.contains(((#[trigger] entries[j]).0, false))
                    && next_pierced[j] == after.contains((entries[j].0, true)),
        decreases rules.len() - i,
    {
        let tree = &rules[i].1;
        proof {
            lemma_map_of_sorted(entries, i as int);
            assert(entries[i as int].1 == tree@);
        }
        let direct = tree_consumes(rules, plain, pierced, Ghost(before), tree);
        let inside = match tree {
            Ivt::Mapping(members) => list_consumes(rules, plain, pierced, Ghost(before), members, false),
            Ivt::Array(members) => list_consumes(rules, plain, pierced, Ghost(before), members, false),
            _ => true,
        };
        next_plain.push(plain[i] || direct);
        next_pierced.push(pierced[i] || inside);
        i += 1;
    }
    (next_plain, next_pierced)
}

/// Whether the rule of the given name is there and marked.
fn name_marked(
    rules: &Vec<(String, Ivt)>,
    flags: &Vec<bool>,
    Ghost(names): Ghost<Set<Seq<char>>>,
    name: &str,
) -> (marked: bool)
    requires
        sorted_by_name(entries_view(rules@)),
        name_marks(entries_view(rules@), flags@, names),
    ensures
        marked == (map_of(entries_view(rules@)).contains_key(name@) && names.contains(name@)),
{
    let ghost entries = entries_view(rules@);
    proof {
        lemma_map_of_names(entries, name@);
    }
    match find_rule(rules, name) {
        Some(pos) => {
            assert(entries[pos as int].0 == name@);
            flags[pos]
        },
        None => false,
    }
}

/// Whether this tree refers, at any depth, to a rule that is marked.
fn tree_mentions(
    rules: &Vec<(String, Ivt)>,
    flags: &Vec<bool>,
    Ghost(names): Ghost<Set<Seq<char>>>,
    tree: &Ivt,
) -> (found: bool)
    requires
        sorted_by_name(entries_view(rules@)),
        name_marks(entries_view(rules@), flags@, names),
    ensures
        found == mentions(map_of(entries_view(rules@)), names, tree@),
    decreases tree,
{
    match tree {
        Ivt::Rule(name) => name_marked(rules, flags, Ghost(names), name.as_str()),
        Ivt::Unwrap(name) => name_marked(rules, flags, Ghost(names), name.as_str()),
        Ivt::Choice(options) => list_mentions(rules, flags, Ghost(names), options),
        Ivt::Mapping(members) => list_mentions(rules, flags, Ghost(names), members),
        Ivt::Array(members) => list_mentions(rules, flags, Ghost(names), members),
        Ivt::Group(members) => list_mentions(rules, flags, Ghost(names), members),
        Ivt::KeyValue(key, value, _) => {
            let first = tree_mentions(rules, flags, Ghost(names), key);
            let second = tree_mentions(rules, flags, Ghost(names), value);
            first || second
        },
        Ivt::Occur(_, inner) => tree_mentions(rules, flags, Ghost(names), inner),
        Ivt::Range(start, end, _) => {
            let first = tree_mentions(rules, flags, Ghost(names), start);
            let second = tree_mentions(rules, flags, Ghost(names), end);
            first || second
        },
        _ => false,
    }
}

/// Whether some tree of a list refers to a rule that is marked.
fn list_mentions(
    rules: &Vec<(String, Ivt)>,
    flags: &Vec<bool>,
    Ghost(names): Ghost<Set<Seq<char>>>,
    trees: &Vec<Ivt>,
) -> (found: bool)
    requires
        sorted_by_name(entries_view(rules@)),
        name_marks(entries_view(rules@), flags@, names),
    ensures
        found == some_mention(map_of(entries_view(rules@)), names, node_views(trees@)),
    decreases trees,
{
    let ghost m = map_of(entries_view(rules@));
    let ghost views = node_views(trees@);
    let mut found = false;
    let mut i: usize = 0;
    proof {
        lemma_node_views(trees@);
        assert(views.take(0) =~= Seq::empty());
    }
    while i < trees.len()
        invariant
            sorted_by_name(entries_view(rules@)),
            name_marks(entries_view(rules@), flags@, names),
            m == map_of(entries_view(rules@)),
            views == node_views(trees@),
            views.len() == trees.len(),
            forall|j: int| 0 <= j < trees.len() ==> #[trigger] views[j] == trees[j]@,
            i <= trees.len(),
            found == some_mention(m, names, views.take(i as int)),
        decreases trees.len() - i,
    {
        let this = tree_mentions(rules, flags, Ghost(names), &trees[i]);
        proof {
            let next = views.take(i + 1);
            assert(next.drop_last() =~= views.take(i as int));
            assert(next.last() == views[i as int]);
        }
        found = found || this;
        i += 1;
    }
    assert(views.take(i as int) =~= views);
    found
}

/// One round of tainting, over all rules.
fn taint_round(rules: &Vec<(String, Ivt)>, flags: &Vec<bool>, Ghost(before): Ghost<Set<Seq<char>>>) -> (next: Vec<
    bool,
>)
    requires
        sorted_by_name(entries_view(rules@)),
        name_marks(entries_view(rules@), flags@, before),
    ensures
        name_marks(entries_view(rules@), next@, taint_step(map_of(entries_view(rules@)), before)),
{
    let ghost entries = entries_view(rules@);
    let ghost m = map_of(entries);
    let ghost after = taint_step(m, before);
    let mut next: Vec<bool> = Vec::new();
    let mut i: usize = 0;
    while i < rules.len()
        invariant
            entries == entries_view(rules@),
            m == map_of(entries),
            after == taint_step(m, before),
            sorted_by_name(entries),
            name_marks(entries, flags@, before),
            i <= rules.len(),
            next.len() == i,
            forall|j: int| 0 <= j < i ==> next[j] == after.contains((#[trigger] entries[j]).0),
        decreases rules.len() - i,
    {
        let tree = &rules[i].1;
        proof {
            lemma_map_of_sorted(entries, i as int);
            assert(entries[i as int].1 == tree@);
        }
        let refers = tree_mentions(rules, flags, Ghost(before), tree);
        next.push(flags[i] || refers);
        i += 1;
    }
    next
}

/// Whether rules in strict order are productive for a validation that
/// starts at the rule of the given name.
pub(crate) fn rules_productive_for(rules: &Vec<(String, Ivt)>, name: &str) -> (ok: bool)
    requires
        sorted_by_name(entries_view(rules@)),
    ensures
        ok == productive_for(map_of(entries_view(rules@)), name@),
{
    let ghost entries = entries_view(rules@);
    let ghost m = map_of(entries);
    let mut settled_plain = no_marks(rules);
    let mut settled_pierced = no_marks(rules);
    let mut consuming_plain = no_marks(rules);
    let mut consuming_pierced = no_marks(rules);
    let ghost mut rounds: nat = 0;
    let mut pair: usize = 0;
    while pair < rules.len()
        invariant
            entries == entries_view(rules@),
            m == map_of(entries),
            sorted_by_name(entries),
            pair <= rules.len(),
            rounds == 2 * pair,
            marks(entries, settled_plain@, settled_pierced@, settled(m, rounds)),
            marks(entries, consuming_plain@, consuming_pierced@, consuming(m, rounds)),
        decreases rules.len() - pair,
    {
        let first = settle_round(rules, &settled_plain, &settled_pierced, Ghost(settled(m, rounds)));
        let second = settle_round(rules, &first.0, &first.1, Ghost(settled(m, rounds + 1)));
        settled_plain = second.0;
        settled_pierced = second.1;
        let first = consume_round(rules, &consuming_plain, &consuming_pierced, Ghost(consuming(m, rounds)));
        let second = consume_round(rules, &first.0, &first.1, Ghost(consuming(m, rounds + 1)));
        consuming_plain = second.0;
        consuming_pierced = second.1;
        proof {
            rounds = rounds + 2;
        }
        pair += 1;
    }
    proof {
        lemma_map_of_len(entries);
    }
    let ghost done = settled(m, rounds);
    let ghost known = consuming(m, rounds);
    let mut flags: Vec<bool> = Vec::new();
    let mut i: usize = 0;
    while i < rules.len()
        invariant
            entries == entries_view(rules@),
            m == map_of(entries),
            sorted_by_name(entries),
            rounds == 2 * m.dom().len(),
            done == settled(m, rounds),
            known == consuming(m, rounds),
            marks(entries, settled_plain@, settled_pierced@, done),
            marks(entries, consuming_plain@, consuming_pierced@, known),
            i <= rules.len(),
            flags.len() == i,
            forall|j: int| 0 <= j < i ==> flags[j] == tainted(m, 0).contains((#[trigger] entries[j]).0),
        decreases rules.len() - i,
    {
        let tree = &rules[i].1;
        proof {
            lemma_map_of_sorted(entries, i as int);
            assert(entries[i as int].1 == tree@);
        }
        let ends = tree_repeats_end(rules, &consuming_plain, &consuming_pierced, Ghost(known), tree);
        flags.push(!(settled_plain[i] && settled_pierced[i] && ends));
        i += 1;
    }
    let ghost mut turns: nat = 0;
    let mut turn: usize = 0;
    while turn < rules.len()
        invariant
            entries == entries_view(rules@),
            m == map_of(entries),
            sorted_by_name(entries),
            turn <= rules.len(),
            turns == turn,
            name_marks(entries, flags@, tainted(m, turns)),
        decreases rules.len() - turn,
    {
        flags = taint_round(rules, &flags, Ghost(tainted(m, turns)));
        proof {
            turns = turns + 1;
        }
        turn += 1;
    }
    let bad = name_marked(rules, &flags, Ghost(tainted(m, turns)), name);
    !bad
}

} // verus!
