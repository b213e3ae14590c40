//! A set of named rules, held for lookup by name.

use vstd::prelude::*;
use vstd::string::*;
use crate::error::{Error, ErrorView};
use crate::ivt_node::IVTNode;
use crate::node::{Ivt, IvtView};
use crate::engine::text_debug;
use crate::render::{deeper, indent, pretty_entries, pretty_rules, write_pretty};
use crate::productive::{productive_for, rules_productive_for};
use crate::order::{lemma_name_lt_irreflexive, lemma_name_lt_total, lemma_name_lt_transitive, name_less, name_lt};

verus! {

/// The views of a list of named rules, in order.
pub open spec fn entries_view(entries: Seq<(String, Ivt)>) -> Seq<(Seq<char>, IvtView)> {
    Seq::new(entries.len(), |i: int| (entries[i].0@, entries[i].1@))
}

/// Whether the names of the entries strictly increase.
pub open spec fn sorted_by_name(entries: Seq<(Seq<char>, IvtView)>) -> bool {
    forall|i: int, j: int|
        #![trigger entries[i], entries[j]]
        0 <= i < j < entries.len() ==> name_lt(entries[i].0, entries[j].0)
}

/// Whether a rule of this name is among the entries.
pub open spec fn names_rule(entries: Seq<(Seq<char>, IvtView)>, name: Seq<char>) -> bool {
    exists|i: int| 0 <= i < entries.len() && #[trigger] entries[i].0 == name
}

/// The mapping that a list of named rules makes, read from first to last:
/// where a name comes twice, the later rule stands.
pub open spec fn map_of(entries: Seq<(Seq<char>, IvtView)>) -> Map<Seq<char>, IvtView>
    decreases entries.len(),
{
    if entries.len() == 0 {
        Map::empty()
    } else {
        map_of(entries.drop_last()).insert(entries.last().0, entries.last().1)
    }
}

/// The rule of a name in a mapping: a key failure where the mapping has none.
pub open spec fn lookup_of(mapping: Map<Seq<char>, IvtView>, name: Seq<char>) -> Result<IvtView, ErrorView> {
    if mapping.contains_key(name) {
        Ok(mapping[name])
    } else {
        Err(ErrorView::KeyNotFound)
    }
}

/// The names that a list of rules maps are the names of its entries.
pub proof fn lemma_map_of_names(entries: Seq<(Seq<char>, IvtView)>, name: Seq<char>)
    ensures
        map_of(entries).contains_key(name) <==> names_rule(entries, name),
    decreases entries.len(),
{
    if entries.len() > 0 {
        let front = entries.drop_last();
        lemma_map_of_names(front, name);
        if names_rule(entries, name) {
            let i = choose|i: int| 0 <= i < entries.len() && #[trigger] entries[i].0 == name;
            if i < entries.len() - 1 {
                assert(front[i].0 == name);
            }
        }
        if names_rule(front, name) {
            let i = choose|i: int| 0 <= i < front.len() && #[trigger] front[i].0 == name;
            assert(entries[i].0 == name);
        }
        if entries.last().0 == name {
            assert(entries[entries.len() - 1].0 == name);
        }
    }
}

/// Where the names strictly increase, each entry is what its name is mapped
/// to.
pub proof fn lemma_map_of_sorted(entries: Seq<(Seq<char>, IvtView)>, i: int)
    requires
        sorted_by_name(entries),
        0 <= i < entries.len(),
    ensures
        map_of(entries).contains_key(entries[i].0),
        map_of(entries)[entries[i].0] == entries[i].1,
    decreases entries.len(),
{
    let front = entries.drop_last();
    if i < entries.len() - 1 {
        assert forall|a: int, b: int| #![trigger front[a], front[b]] 0 <= a < b < front.len() implies name_lt(
            front[a].0,
            front[b].0,
        ) by {
            assert(name_lt(entries[a].0, entries[b].0));
        }
        lemma_map_of_sorted(front, i);
        assert(name_lt(entries[i].0, entries[entries.len() - 1].0));
        lemma_name_lt_irreflexive(entries[i].0, entries.last().0);
    }
}

/// Putting a rule of a new name into its place among rules in strict order
/// adds it to the mapping, and keeps the order.
pub proof fn lemma_insert_entry(entries: Seq<(Seq<char>, IvtView)>, pos: int, entry: (Seq<char>, IvtView))
    requires
        sorted_by_name(entries),
        0 <= pos <= entries.len(),
        forall|j: int| 0 <= j < pos ==> name_lt(#[trigger] entries[j].0, entry.0),
        forall|j: int| pos <= j < entries.len() ==> name_lt(entry.0, #[trigger] entries[j].0),
    ensures
        sorted_by_name(entries.insert(pos, entry)),
        map_of(entries.insert(pos, entry)) == map_of(entries).insert(entry.0, entry.1),
{
    let after = entries.insert(pos, entry);
    assert forall|a: int, b: int| #![trigger after[a], after[b]] 0 <= a < b < after.len() implies name_lt(
        after[a].0,
        after[b].0,
    ) by {
        if b < pos {
            assert(name_lt(entries[a].0, entries[b].0));
        } else if b == pos {
            assert(name_lt(entries[a].0, entry.0));
        } else if a < pos {
            assert(name_lt(entries[a].0, entries[b - 1].0));
        } else if a == pos {
            assert(name_lt(entry.0, entries[b - 1].0));
        } else {
            assert(name_lt(entries[a - 1].0, entries[b - 1].0));
        }
    }
    let left = map_of(after);
    let right = map_of(entries).insert(entry.0, entry.1);
    assert forall|name: Seq<char>| left.contains_key(name) <==> right.contains_key(name) by {
        lemma_map_of_names(after, name);
        lemma_map_of_names(entries, name);
        if names_rule(after, name) {
            let i = choose|i: int| 0 <= i < after.len() && #[trigger] after[i].0 == name;
            if i < pos {
                assert(entries[i].0 == name);
            } else if i > pos {
                assert(entries[i - 1].0 == name);
            }
        }
        if names_rule(entries, name) {
            let i = choose|i: int| 0 <= i < entries.len() && #[trigger] entries[i].0 == name;
            if i < pos {
                assert(after[i].0 == name);
            } else {
                assert(after[i + 1].0 == name);
            }
        }
        if name == entry.0 {
            assert(after[pos].0 == name);
        }
    }
    assert forall|name: Seq<char>| left.contains_key(name) implies left[name] == right[name] by {
        lemma_map_of_names(after, name);
        let i = choose|i: int| 0 <= i < after.len() && #[trigger] after[i].0 == name;
        lemma_map_of_sorted(after, i);
        if i < pos {
            lemma_map_of_sorted(entries, i);
            lemma_name_lt_irreflexive(entries[i].0, entry.0);
        } else if i > pos {
            lemma_map_of_sorted(entries, i - 1);
            lemma_name_lt_irreflexive(entry.0, entries[i - 1].0);
        }
    }
    assert(left =~= right);
}

/// Putting a rule in the place of the rule of the same name among rules in
/// strict order changes what that name is mapped to, and keeps the order.
pub proof fn lemma_replace_entry(entries: Seq<(Seq<char>, IvtView)>, pos: int, entry: (Seq<char>, IvtView))
    requires
        sorted_by_name(entries),
        0 <= pos < entries.len(),
        entries[pos].0 == entry.0,
    ensures
        sorted_by_name(entries.update(pos, entry)),
        map_of(entries.update(pos, entry)) == map_of(entries).insert(entry.0, entry.1),
{
    let after = entries.update(pos, entry);
    assert forall|a: int, b: int| #![trigger after[a], after[b]] 0 <= a < b < after.len() implies name_lt(
        after[a].0,
        after[b].0,
    ) by {
        assert(name_lt(entries[a].0, entries[b].0));
    }
    let left = map_of(after);
    let right = map_of(entries).insert(entry.0, entry.1);
    assert forall|name: Seq<char>| left.contains_key(name) <==> right.contains_key(name) by {
        lemma_map_of_names(after, name);
        lemma_map_of_names(entries, name);
        if names_rule(after, name) {
            let i = choose|i: int| 0 <= i < after.len() && #[trigger] after[i].0 == name;
            assert(entries[i].0 == name);
        }
        if names_rule(entries, name) {
            let i = choose|i: int| 0 <= i < entries.len() && #[trigger] entries[i].0 == name;
            assert(after[i].0 == name);
        }
        if name == entry.0 {
            assert(after[pos].0 == name);
        }
    }
    assert forall|name: Seq<char>| left.contains_key(name) implies left[name] == right[name] by {
        lemma_map_of_names(after, name);
        let i = choose|i: int| 0 <= i < after.len() && #[trigger] after[i].0 == name;
        lemma_map_of_sorted(after, i);
        if i < pos {
            lemma_map_of_sorted(entries, i);
            assert(name_lt(entries[i].0, entries[pos].0));
            lemma_name_lt_irreflexive(entries[i].0, entry.0);
        } else if i > pos {
            lemma_map_of_sorted(entries, i);
            assert(name_lt(entries[pos].0, entries[i].0));
            lemma_name_lt_irreflexive(entry.0, entries[i].0);
        }
    }
    assert(left =~= right);
}

/// The first place among rules in strict order whose name does not come
/// before the given one.
fn lower_bound(rules: &Vec<(String, Ivt)>, name: &str) -> (pos: usize)
    requires
        sorted_by_name(entries_view(rules@)),
    ensures
        pos <= rules.len(),
        forall|j: int| 0 <= j < pos ==> name_lt(#[trigger] entries_view(rules@)[j].0, name@),
        forall|j: int| pos <= j < rules.len() ==> !name_lt(#[trigger] entries_view(rules@)[j].0, name@),
{
    let ghost entries = entries_view(rules@);
    let mut lo: usize = 0;
    let mut hi: usize = rules.len();
    while lo < hi
        invariant
            entries == entries_view(rules@),
            sorted_by_name(entries),
            lo <= hi <= rules.len(),
            forall|j: int| 0 <= j < lo ==> name_lt(#[trigger] entries[j].0, name@),
            forall|j: int| hi <= j < rules.len() ==> !name_lt(#[trigger] entries[j].0, name@),
        decreases hi - lo,
    {
        let mid = lo + (hi - lo) / 2;
        if name_less(rules[mid].0.as_str(), name) {
            assert forall|j: int| 0 <= j < mid + 1 implies name_lt(#[trigger] entries[j].0, name@) by {
                if j < mid {
                    assert(name_lt(entries[j].0, entries[mid as int].0));
                    lemma_name_lt_transitive(entries[j].0, entries[mid as int].0, name@);
                }
            }
            lo = mid + 1;
        } else {
            assert forall|j: int| mid <= j < rules.len() implies !name_lt(#[trigger] entries[j].0, name@) by {
                if j > mid && name_lt(entries[j].0, name@) {
                    assert(name_lt(entries[mid as int].0, entries[j].0));
                    lemma_name_lt_transitive(entries[mid as int].0, entries[j].0, name@);
                }
            }
            hi = mid;
        }
    }
    lo
}

/// The place of the rule of the given name among rules in strict order.
pub(crate) fn find_rule(rules: &Vec<(String, Ivt)>, name: &str) -> (found: Option<usize>)
    requires
        sorted_by_name(entries_view(rules@)),
    ensures
        (match found {
            Some(pos) => pos < rules.len() && entries_view(rules@)[pos as int].0 == name@,
            None => !names_rule(entries_view(rules@), name@),
        }),
{
    let ghost entries = entries_view(rules@);
    let pos = lower_bound(rules, name);
    if pos < rules.len() && !name_less(name, rules[pos].0.as_str()) {
        proof {
            lemma_name_lt_total(name@, entries[pos as int].0);
        }
        Some(pos)
    } else {
        proof {
            if names_rule(entries, name@) {
                let j = choose|j: int| 0 <= j < entries.len() && #[trigger] entries[j].0 == name@;
                if j < pos {
                    lemma_name_lt_irreflexive(entries[j].0, name@);
                } else if j > pos {
                    assert(name_lt(entries[pos as int].0, entries[j].0));
                } else {
                    lemma_name_lt_irreflexive(name@, entries[j].0);
                }
            }
        }
        None
    }
}

/// Rules in strict order map as many names as there are rules.
pub proof fn lemma_map_of_len(entries: Seq<(Seq<char>, IvtView)>)
    requires
        sorted_by_name(entries),
    ensures
        map_of(entries).dom().finite(),
        map_of(entries).dom().len() == entries.len(),
    decreases entries.len(),
{
    if entries.len() > 0 {
        let front = entries.drop_last();
        assert forall|a: int, b: int| #![trigger front[a], front[b]] 0 <= a < b < front.len() implies name_lt(
            front[a].0,
            front[b].0,
        ) by {
            assert(name_lt(entries[a].0, entries[b].0));
        }
        lemma_map_of_len(front);
        lemma_map_of_names(front, entries.last().0);
        if names_rule(front, entries.last().0) {
            let i = choose|i: int| 0 <= i < front.len() && #[trigger] front[i].0 == entries.last().0;
            assert(name_lt(entries[i].0, entries[entries.len() - 1].0));
            lemma_name_lt_irreflexive(entries[i].0, entries.last().0);
        }
        assert(map_of(entries).dom() =~= map_of(front).dom().insert(entries.last().0));
    }
}

/// The rules before the last, of rules in strict order, are in strict order
/// and map what the whole maps without the last name.
proof fn lemma_front_of_sorted(entries: Seq<(Seq<char>, IvtView)>)
    requires
        sorted_by_name(entries),
        entries.len() > 0,
    ensures
        sorted_by_name(entries.drop_last()),
        map_of(entries.drop_last()) == map_of(entries).remove(entries.last().0),
{
    let front = entries.drop_last();
    assert forall|a: int, b: int| #![trigger front[a], front[b]] 0 <= a < b < front.len() implies name_lt(
        front[a].0,
        front[b].0,
    ) by {
        assert(name_lt(entries[a].0, entries[b].0));
    }
    lemma_map_of_names(front, entries.last().0);
    if names_rule(front, entries.last().0) {
        let i = choose|i: int| 0 <= i < front.len() && #[trigger] front[i].0 == entries.last().0;
        assert(name_lt(entries[i].0, entries[entries.len() - 1].0));
        lemma_name_lt_irreflexive(entries[i].0, entries.last().0);
    }
    assert(map_of(front) =~= map_of(entries).remove(entries.last().0));
}

/// The last name of rules in strict order is the last of all the names that
/// they map: no name of the mapping comes after it.
proof fn lemma_last_is_greatest(entries: Seq<(Seq<char>, IvtView)>, name: Seq<char>)
    requires
        sorted_by_name(entries),
        entries.len() > 0,
        map_of(entries).contains_key(name),
    ensures
        name == entries.last().0 || name_lt(name, entries.last().0),
{
    lemma_map_of_names(entries, name);
    let i = choose|i: int| 0 <= i < entries.len() && #[trigger] entries[i].0 == name;
    if i < entries.len() - 1 {
        assert(name_lt(entries[i].0, entries[entries.len() - 1].0));
    }
}

/// Rules in strict order are fixed by their mapping: two lists in strict
/// order that map the same are the same list.
pub proof fn lemma_sorted_entries_are_fixed(a: Seq<(Seq<char>, IvtView)>, b: Seq<(Seq<char>, IvtView)>)
    requires
        sorted_by_name(a),
        sorted_by_name(b),
        map_of(a) == map_of(b),
    ensures
        a == b,
    decreases a.len(),
{
    lemma_map_of_len(a);
    lemma_map_of_len(b);
    if a.len() == 0 {
        assert(a =~= b);
    } else {
        let x = a.last();
        let y = b.last();
        lemma_map_of_sorted(a, a.len() - 1);
        lemma_map_of_sorted(b, b.len() - 1);
        lemma_last_is_greatest(a, y.0);
        lemma_last_is_greatest(b, x.0);
        if x.0 != y.0 {
            lemma_name_lt_transitive(x.0, y.0, x.0);
            lemma_name_lt_irreflexive(x.0, x.0);
        }
        lemma_front_of_sorted(a);
        lemma_front_of_sorted(b);
        lemma_sorted_entries_are_fixed(a.drop_last(), b.drop_last());
        assert(a =~= a.drop_last().push(x));
        assert(b =~= b.drop_last().push(y));
    }
}

/// Puts a rule among rules in strict order: in the place of the rule of the
/// same name, where there is one, and else where its name belongs.
fn insert_rule(rules: &mut Vec<(String, Ivt)>, name: String, node: Ivt)
    requires
        sorted_by_name(entries_view(old(rules)@)),
    ensures
        sorted_by_name(entries_view(final(rules)@)),
        map_of(entries_view(final(rules)@)) == map_of(entries_view(old(rules)@)).insert(name@, node@),
{
    let ghost before = entries_view(rules@);
    let ghost entry = (name@, node@);
    let pos = lower_bound(rules, name.as_str());
    if pos < rules.len() && rules[pos].0 == name {
        proof {
            lemma_replace_entry(before, pos as int, entry);
        }
        rules.set(pos, (name, node));
        assert(entries_view(rules@) =~= before.update(pos as int, entry));
    } else {
        proof {
            assert forall|j: int| pos <= j < before.len() implies name_lt(entry.0, #[trigger] before[j].0) by {
                lemma_name_lt_total(entry.0, before[j].0);
                if j > pos && entry.0 == before[j].0 {
                    assert(name_lt(before[pos as int].0, before[j].0));
                }
            }
            lemma_insert_entry(before, pos as int, entry);
        }
        rules.insert(pos, (name, node));
        assert(entries_view(rules@) =~= before.insert(pos as int, entry));
    }
}

/// The rules of a compiled schema, by name. It is built once and only read
/// afterwards.
#[derive(Debug)]
pub struct CDDLRules {
    rules_map: Vec<(String, Ivt)>,
}

impl View for CDDLRules {
    type V = Map<Seq<char>, IvtView>;

    /// The mapping from each rule's name to its tree.
    closed spec fn view(&self) -> Map<Seq<char>, IvtView> {
        map_of(self.entries())
    }
}

impl CDDLRules {
    #[verifier::type_invariant]
    spec fn in_order(self) -> bool {
        sorted_by_name(entries_view(self.rules_map@))
    }

    /// The rules in the order in which they are held and shown: that of
    /// their names.
    pub closed spec fn entries(&self) -> Seq<(Seq<char>, IvtView)> {
        entries_view(self.rules_map@)
    }

    /// Builds the rule set of a list of named rules, read from first to last:
    /// where a name comes twice, the later rule stands.
    pub fn from_entries(entries: Vec<(String, Ivt)>) -> (rules: CDDLRules)
        ensures
            rules@ == map_of(entries_view(entries@)),
            rules@ == map_of(rules.entries()),
            sorted_by_name(rules.entries()),
    {
        let mut sorted: Vec<(String, Ivt)> = Vec::new();
        let ghost given = entries_view(entries@);
        let mut i: usize = 0;
        assert(given.take(0) =~= Seq::empty());
        while i < entries.len()
            invariant
                given == entries_view(entries@),
                i <= entries.len(),
                sorted_by_name(entries_view(sorted@)),
                map_of(entries_view(sorted@)) == map_of(given.take(i as int)),
            decreases entries.len() - i,
        {
            let name = entries[i].0.clone();
            let node = entries[i].1.clone();
            assert(given.take(i + 1).drop_last() =~= given.take(i as int));
            insert_rule(&mut sorted, name, node);
            i += 1;
        }
        assert(given.take(i as int) =~= given);
        CDDLRules { rules_map: sorted }
    }

    /// Whether the rules are productive for a validation that starts at the
    /// rule of the given name. Where they are, the engine comes to an end on
    /// that validation, whatever the value.
    pub fn is_productive_for(&self, name: &str) -> (ok: bool)
        ensures
            ok == productive_for(self@, name@),
    {
        proof {
            use_type_invariant(self);
        }
        rules_productive_for(&self.rules_map, name)
    }

    /// The text of every rule with its whole tree, for diagnostics: laid out
    /// over indented lines, each rule once and in the order of the names.
    pub fn __repr__(&self) -> (text: String)
        ensures
            text@ == pretty_rules(self.entries()),
            sorted_by_name(self.entries()),
            self@ == map_of(self.entries()),
    {
        proof {
            use_type_invariant(self);
        }
        let ghost entries = self.entries();
        let mut out = String::new();
        if self.rules_map.len() == 0 {
            out.append("{}");
            assert(out@ =~= pretty_rules(entries));
            return out;
        }
        let margin = String::new();
        assert(margin@ =~= indent(0));
        let pad = deeper(margin.as_str(), Ghost(0));
        out.append("{\n");
        let ghost start = out@;
        let mut i: usize = 0;
        assert(entries.take(0) =~= Seq::empty());
        assert(out@ =~= start + pretty_entries(entries.take(0)));
        while i < self.rules_map.len()
            invariant
                entries == entries_view(self.rules_map@),
                pad@ == indent(1),
                i <= self.rules_map.len(),
                out@ == start + pretty_entries(entries.take(i as int)),
            decreases self.rules_map.len() - i,
        {
            out.append(pad.as_str());
            out.append(text_debug(self.rules_map[i].0.as_str()).as_str());
            out.append(": ");
            write_pretty(&self.rules_map[i].1, pad.as_str(), Ghost(1), &mut out);
            out.append(",\n");
            proof {
                let next = entries.take(i + 1);
                assert(next.drop_last() =~= entries.take(i as int));
                assert(next.last() == entries[i as int]);
                assert(out@ =~= start + pretty_entries(next));
            }
            i += 1;
        }
        assert(entries.take(i as int) =~= entries);
        out.append("}");
        assert(out@ =~= pretty_rules(entries));
        out
    }

    /// The rule of the given name, as a node of its own. Where the set holds
    /// no rule of that name, the call fails with `KeyNotFound`.
    pub fn __getitem__(&self, key: &str) -> (result: Result<IVTNode, Error>)
        ensures
            (match lookup_of(self@, key@) {
                Ok(tree) => result matches Ok(found) && found@ == tree,
                Err(failure) => result matches Err(e) && e@ == failure,
            }),
    {
        proof {
            use_type_invariant(self);
            lemma_map_of_names(self.entries(), key@);
        }
        match find_rule(&self.rules_map, key) {
            Some(pos) => {
                proof {
                    lemma_map_of_sorted(self.entries(), pos as int);
                }
                Ok(IVTNode { node: self.rules_map[pos].1.clone() })
            },
            None => Err(Error::KeyNotFound),
        }
    }
}

} // verus!
