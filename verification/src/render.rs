//! The rendering of a tree as text, for diagnostics.
//!
//! The text follows the notation in which Rust shows a value for debugging:
//! on one line for a node, and laid out over indented lines for a rule set.
//! A text and a name are written as `Debug` writes a `str`. A floating-point
//! literal is shown by its bit pattern.

use vstd::prelude::*;
use vstd::string::*;
use crate::engine::{debug_text, text_debug};
use crate::node::{lemma_node_views, node_views, Ivt, IvtView, OccurLimit, Scalar, ScalarView};
use crate::text::{decimal, digit_char, prelude_name, prelude_str};

verus! {

/// An integer in decimal, with a minus sign where it is negative.
pub open spec fn render_int(i: int) -> Seq<char> {
    if i < 0 {
        "-"@ + decimal((-i) as nat)
    } else {
        decimal(i as nat)
    }
}

/// The bytes in decimal, with a comma and a space between them.
pub open spec fn render_bytes(bytes: Seq<u8>) -> Seq<char>
    decreases bytes.len(),
{
    if bytes.len() == 0 {
        Seq::empty()
    } else if bytes.len() == 1 {
        decimal(bytes[0] as nat)
    } else {
        render_bytes(bytes.drop_last()) + ", "@ + decimal(bytes.last() as nat)
    }
}

/// A scalar, under the name of its variant.
pub open spec fn render_scalar(scalar: ScalarView) -> Seq<char> {
    match scalar {
        ScalarView::Bool(b) => if b {
            "Bool(true)"@
        } else {
            "Bool(false)"@
        },
        ScalarView::Int(i) => "Int("@ + render_int(i) + ")"@,
        ScalarView::Float(bits) => "Float(bits: "@ + decimal(bits as nat) + ")"@,
        ScalarView::Text(t) => "Text("@ + debug_text(t) + ")"@,
        ScalarView::Bytes(b) => "Bytes(["@ + render_bytes(b) + "])"@,
    }
}

/// An occurrence limit, under the name of its variant.
pub open spec fn render_limit(limit: OccurLimit) -> Seq<char> {
    match limit {
        OccurLimit::Optional => "Optional"@,
        OccurLimit::ZeroOrMore => "ZeroOrMore"@,
        OccurLimit::OneOrMore => "OneOrMore"@,
        OccurLimit::Numbered(n, m) => "Numbered("@ + decimal(n as nat) + ", "@ + decimal(m as nat) + ")"@,
    }
}

/// The nodes of a list, with a comma and a space between them.
pub open spec fn render_list(nodes: Seq<IvtView>) -> Seq<char>
    decreases nodes,
{
    if nodes.len() == 0 {
        Seq::empty()
    } else if nodes.len() == 1 {
        render(nodes[0])
    } else {
        render_list(nodes.drop_last()) + ", "@ + render(nodes.last())
    }
}

/// A node and its whole subtree.
pub open spec fn render(node: IvtView) -> Seq<char>
    decreases node,
{
    match node {
        IvtView::Literal(l) => "Literal("@ + render_scalar(l) + ")"@,
        IvtView::PreludeType(p) => "PreludeType("@ + prelude_name(p) + ")"@,
        IvtView::Rule(name) => "Rule(Rule { name: "@ + debug_text(name) + " })"@,
        IvtView::Choice(options) => "Choice(Choice { options: ["@ + render_list(options) + "] })"@,
        IvtView::Mapping(members) => "Map(Map { members: ["@ + render_list(members) + "] })"@,
        IvtView::Array(members) => "Array(Array { members: ["@ + render_list(members) + "] })"@,
        IvtView::Group(members) => "Group(Group { members: ["@ + render_list(members) + "] })"@,
        IvtView::KeyValue(key, value, _) => "KeyValue(KeyValue("@ + render(*key) + ", "@ + render(*value) + "))"@,
        IvtView::Occur(limit, inner) => "Occur(Occur { limit: "@ + render_limit(limit) + ", node: "@ + render(
            *inner,
        ) + " })"@,
        IvtView::Unwrap(name) => "Unwrap(Rule { name: "@ + debug_text(name) + " })"@,
        IvtView::Range(start, end, inclusive) => "Range(Range { start: "@ + render(*start) + ", end: "@
            + render(*end) + ", inclusive: "@ + (if inclusive {
            "true"@
        } else {
            "false"@
        }) + " })"@,
    }
}

/// The text of a decimal digit.
fn digit_str(d: u8) -> (text: &'static str)
    requires
        d < 10,
    ensures
        text@ == seq![digit_char(d as int)],
{
    proof {
        reveal_strlit("0");
        reveal_strlit("1");
        reveal_strlit("2");
        reveal_strlit("3");
        reveal_strlit("4");
        reveal_strlit("5");
        reveal_strlit("6");
        reveal_strlit("7");
        reveal_strlit("8");
        reveal_strlit("9");
    }
    let text = if d == 0 {
        "0"
    } else if d == 1 {
        "1"
    } else if d == 2 {
        "2"
    } else if d == 3 {
        "3"
    } else if d == 4 {
        "4"
    } else if d == 5 {
        "5"
    } else if d == 6 {
        "6"
    } else if d == 7 {
        "7"
    } else if d == 8 {
        "8"
    } else {
        "9"
    };
    assert(text@ =~= seq![digit_char(d as int)]);
    text
}

/// Writes a natural number in decimal.
pub fn write_decimal(n: u128, out: &mut String)
    ensures
        final(out)@ == old(out)@ + decimal(n as nat),
    decreases n,
{
    let ghost start = out@;
    if n >= 10 {
        write_decimal(n / 10, out);
    }
    out.append(digit_str((n % 10) as u8));
    assert(out@ =~= start + decimal(n as nat));
}

/// Writes an integer in decimal.
pub fn write_int(i: i128, out: &mut String)
    ensures
        final(out)@ == old(out)@ + render_int(i as int),
{
    let ghost start = out@;
    if i < 0 {
        out.append("-");
        let magnitude: u128 = if i == i128::MIN {
            (i128::MAX as u128) + 1
        } else {
            (-i) as u128
        };
        write_decimal(magnitude, out);
        assert(out@ =~= start + render_int(i as int));
    } else {
        write_decimal(i as u128, out);
    }
}

/// Writes bytes in decimal, with a comma and a space between them.
pub fn write_bytes(bytes: &Vec<u8>, out: &mut String)
    ensures
        final(out)@ == old(out)@ + render_bytes(bytes@),
{
    let ghost start = out@;
    let mut i: usize = 0;
    assert(bytes@.take(0) =~= Seq::empty());
    assert(out@ =~= start + render_bytes(bytes@.take(0)));
    while i < bytes.len()
        invariant
            i <= bytes.len(),
            out@ == start + render_bytes(bytes@.take(i as int)),
        decreases bytes.len() - i,
    {
        let ghost before = out@;
        if i > 0 {
            out.append(", ");
        }
        write_decimal(bytes[i] as u128, out);
        proof {
            let next = bytes@.take(i + 1);
            assert(next.drop_last() =~= bytes@.take(i as int));
            assert(next.last() == bytes@[i as int]);
            assert(out@ =~= start + render_bytes(next));
        }
        i += 1;
    }
    assert(bytes@.take(i as int) =~= bytes@);
}

/// Writes a scalar, under the name of its variant.
pub fn write_scalar(scalar: &Scalar, out: &mut String)
    ensures
        final(out)@ == old(out)@ + render_scalar(scalar@),
{
    let ghost start = out@;
    match scalar {
        Scalar::Bool(b) => {
            if *b {
                out.append("Bool(true)");
            } else {
                out.append("Bool(false)");
            }
        },
        Scalar::Int(i) => {
            out.append("Int(");
            write_int(*i, out);
            out.append(")");
        },
        Scalar::Float(bits) => {
            out.append("Float(bits: ");
            write_decimal(*bits as u128, out);
            out.append(")");
        },
        Scalar::Text(t) => {
            out.append("Text(");
            out.append(text_debug(t.as_str()).as_str());
            out.append(")");
        },
        Scalar::Bytes(b) => {
            out.append("Bytes([");
            write_bytes(b, out);
            out.append("])");
        },
    }
    assert(out@ =~= start + render_scalar(scalar@));
}

/// Writes an occurrence limit, under the name of its variant.
pub fn write_limit(limit: &OccurLimit, out: &mut String)
    ensures
        final(out)@ == old(out)@ + render_limit(*limit),
{
    let ghost start = out@;
    match limit {
        OccurLimit::Optional => {
            out.append("Optional");
        },
        OccurLimit::ZeroOrMore => {
            out.append("ZeroOrMore");
        },
        OccurLimit::OneOrMore => {
            out.append("OneOrMore");
        },
        OccurLimit::Numbered(n, m) => {
            out.append("Numbered(");
            write_decimal(*n as u128, out);
            out.append(", ");
            write_decimal(*m as u128, out);
            out.append(")");
        },
    }
    assert(out@ =~= start + render_limit(*limit));
}

/// Writes the nodes of a list, with a comma and a space between them.
pub fn write_list(nodes: &Vec<Ivt>, out: &mut String)
    ensures
        final(out)@ == old(out)@ + render_list(node_views(nodes@)),
    decreases nodes,
{
    let ghost start = out@;
    let ghost views = node_views(nodes@);
    let mut i: usize = 0;
    proof {
        lemma_node_views(nodes@);
        assert(views.take(0) =~= Seq::empty());
        assert(out@ =~= start + render_list(views.take(0)));
    }
    while i < nodes.len()
        invariant
            views == node_views(nodes@),
            views.len() == nodes.len(),
            forall|j: int| 0 <= j < nodes.len() ==> #[trigger] views[j] == nodes[j]@,
            i <= nodes.len(),
            out@ == start + render_list(views.take(i as int)),
        decreases nodes.len() - i,
    {
        if i > 0 {
            out.append(", ");
        }
        write_node(&nodes[i], out);
        proof {
            let next = views.take(i + 1);
            assert(next.drop_last() =~= views.take(i as int));
            assert(next.last() == views[i as int]);
            assert(out@ =~= start + render_list(next));
        }
        i += 1;
    }
    assert(views.take(i as int) =~= views);
}

/// Writes a node and its whole subtree.
pub fn write_node(node: &Ivt, out: &mut String)
    ensures
        final(out)@ == old(out)@ + render(node@),
    decreases node,
{
    let ghost start = out@;
    match node {
        Ivt::Literal(l) => {
            out.append("Literal(");
            write_scalar(l, out);
            out.append(")");
        },
        Ivt::PreludeType(p) => {
            out.append("PreludeType(");
            out.append(prelude_str(*p));
            out.append(")");
        },
        Ivt::Rule(name) => {
            out.append("Rule(Rule { name: ");
            out.append(text_debug(name.as_str()).as_str());
            out.append(" })");
        },
        Ivt::Choice(options) => {
            out.append("Choice(Choice { options: [");
            write_list(options, out);
            out.append("] })");
        },
        Ivt::Mapping(members) => {
            out.append("Map(Map { members: [");
            write_list(members, out);
            out.append("] })");
        },
        Ivt::Array(members) => {
            out.append("Array(Array { members: [");
            write_list(members, out);
            out.append("] })");
        },
        Ivt::Group(members) => {
            out.append("Group(Group { members: [");
            write_list(members, out);
            out.append("] })");
        },
        Ivt::KeyValue(key, value, _) => {
            out.append("KeyValue(KeyValue(");
            write_node(key, out);
            out.append(", ");
            write_node(value, out);
            out.append("))");
        },
        Ivt::Occur(limit, inner) => {
            out.append("Occur(Occur { limit: ");
            write_limit(limit, out);
            out.append(", node: ");
            write_node(inner, out);
            out.append(" })");
        },
        Ivt::Unwrap(name) => {
            out.append("Unwrap(Rule { name: ");
            out.append(text_debug(name.as_str()).as_str());
            out.append(" })");
        },
        Ivt::Range(start_node, end_node, inclusive) => {
            out.append("Range(Range { start: ");
            write_node(start_node, out);
            out.append(", end: ");
            write_node(end_node, out);
            out.append(", inclusive: ");
            if *inclusive {
                out.append("true");
            } else {
                out.append("false");
            }
            out.append(" })");
        },
    }
    assert(out@ =~= start + render(node@));
}

/// The indentation of a line at a depth: four spaces for each level.
pub open spec fn indent(depth: nat) -> Seq<char>
    decreases depth,
{
    if depth == 0 {
        Seq::empty()
    } else {
        indent((depth - 1) as nat) + "    "@
    }
}

/// The start of what is laid out at a depth: the head, and the start of the
/// first line inside.
pub open spec fn opening(head: Seq<char>, depth: nat) -> Seq<char> {
    head + "\n"@ + indent(depth + 1)
}

/// What stands between two things inside what is laid out at a depth.
pub open spec fn between(depth: nat) -> Seq<char> {
    ",\n"@ + indent(depth + 1)
}

/// The end of what is laid out at a depth: the comma after the last thing
/// inside, and the tail on a line of its own.
pub open spec fn closing(tail: Seq<char>, depth: nat) -> Seq<char> {
    ",\n"@ + indent(depth) + tail
}

/// Each byte on a line of its own at a depth, in decimal, with a comma.
pub open spec fn pretty_byte_lines(bytes: Seq<u8>, depth: nat) -> Seq<char>
    decreases bytes.len(),
{
    if bytes.len() == 0 {
        Seq::empty()
    } else {
        pretty_byte_lines(bytes.drop_last(), depth) + indent(depth) + decimal(bytes.last() as nat) + ",\n"@
    }
}

/// Bytes, laid out at a depth.
pub open spec fn pretty_bytes(bytes: Seq<u8>, depth: nat) -> Seq<char> {
    if bytes.len() == 0 {
        "[]"@
    } else {
        "[\n"@ + pretty_byte_lines(bytes, depth + 1) + indent(depth) + "]"@
    }
}

/// A scalar, laid out at a depth.
pub open spec fn pretty_scalar(scalar: ScalarView, depth: nat) -> Seq<char> {
    match scalar {
        ScalarView::Bool(b) => opening("Bool("@, depth) + (if b {
            "true"@
        } else {
            "false"@
        }) + closing(")"@, depth),
        ScalarView::Int(i) => opening("Int("@, depth) + render_int(i) + closing(")"@, depth),
        ScalarView::Float(bits) => opening("Float("@, depth) + "bits: "@ + decimal(bits as nat) + closing(
            ")"@,
            depth,
        ),
        ScalarView::Text(t) => opening("Text("@, depth) + debug_text(t) + closing(")"@, depth),
        ScalarView::Bytes(b) => opening("Bytes("@, depth) + pretty_bytes(b, depth + 1) + closing(")"@, depth),
    }
}

/// An occurrence limit, laid out at a depth.
pub open spec fn pretty_limit(limit: OccurLimit, depth: nat) -> Seq<char> {
    match limit {
        OccurLimit::Optional => "Optional"@,
        OccurLimit::ZeroOrMore => "ZeroOrMore"@,
        OccurLimit::OneOrMore => "OneOrMore"@,
        OccurLimit::Numbered(n, m) => opening("Numbered("@, depth) + decimal(n as nat) + between(depth) + decimal(
            m as nat,
        ) + closing(")"@, depth),
    }
}

/// Each node of a list on lines of its own at a depth, with a comma.
pub open spec fn pretty_lines(nodes: Seq<IvtView>, depth: nat) -> Seq<char>
    decreases nodes, 0nat,
{
    if nodes.len() == 0 {
        Seq::empty()
    } else {
        pretty_lines(nodes.drop_last(), depth) + indent(depth) + pretty(nodes.last(), depth) + ",\n"@
    }
}

/// A list of nodes, laid out at a depth.
pub open spec fn pretty_list(nodes: Seq<IvtView>, depth: nat) -> Seq<char>
    decreases nodes, 1nat,
{
    if nodes.len() == 0 {
        "[]"@
    } else {
        "[\n"@ + pretty_lines(nodes, depth + 1) + indent(depth) + "]"@
    }
}

/// A list of nodes as the one field of a variant, laid out at a depth.
pub open spec fn pretty_members(
    outer: Seq<char>,
    inner: Seq<char>,
    field: Seq<char>,
    nodes: Seq<IvtView>,
    depth: nat,
) -> Seq<char>
    decreases nodes, 2nat,
{
    opening(outer, depth) + opening(inner, depth + 1) + field + pretty_list(nodes, depth + 2) + closing(
        "}"@,
        depth + 1,
    ) + closing(")"@, depth)
}

/// A name as the one field of a reference, laid out at a depth.
pub open spec fn pretty_reference(outer: Seq<char>, name: Seq<char>, depth: nat) -> Seq<char> {
    opening(outer, depth) + opening("Rule {"@, depth + 1) + "name: "@ + debug_text(name) + closing(
        "}"@,
        depth + 1,
    ) + closing(")"@, depth)
}

/// A key/value pair of two texts, laid out at a depth.
pub open spec fn pretty_pair(key: Seq<char>, value: Seq<char>, depth: nat) -> Seq<char> {
    opening("KeyValue("@, depth) + opening("KeyValue("@, depth + 1) + key + between(depth + 1) + value + closing(
        ")"@,
        depth + 1,
    ) + closing(")"@, depth)
}

/// An occurrence of two texts, laid out at a depth.
pub open spec fn pretty_occur(limit: Seq<char>, inner: Seq<char>, depth: nat) -> Seq<char> {
    opening("Occur("@, depth) + opening("Occur {"@, depth + 1) + "limit: "@ + limit + between(depth + 1)
        + "node: "@ + inner + closing("}"@, depth + 1) + closing(")"@, depth)
}

/// A range of two texts, laid out at a depth.
pub open spec fn pretty_range(start: Seq<char>, end: Seq<char>, inclusive: bool, depth: nat) -> Seq<char> {
    opening("Range("@, depth) + opening("Range {"@, depth + 1) + "start: "@ + start + between(depth + 1)
        + "end: "@ + end + between(depth + 1) + "inclusive: "@ + (if inclusive {
        "true"@
    } else {
        "false"@
    }) + closing("}"@, depth + 1) + closing(")"@, depth)
}

/// A node and its whole subtree, laid out at a depth: every field on lines
/// of its own, one level deeper than what holds it.
pub open spec fn pretty(node: IvtView, depth: nat) -> Seq<char>
    decreases node, 3nat,
{
    match node {
        IvtView::Literal(l) => opening("Literal("@, depth) + pretty_scalar(l, depth + 1) + closing(")"@, depth),
        IvtView::PreludeType(p) => opening("PreludeType("@, depth) + prelude_name(p) + closing(")"@, depth),
        IvtView::Rule(name) => pretty_reference("Rule("@, name, depth),
        IvtView::Choice(options) => pretty_members("Choice("@, "Choice {"@, "options: "@, options, depth),
        IvtView::Mapping(members) => pretty_members("Map("@, "Map {"@, "members: "@, members, depth),
        IvtView::Array(members) => pretty_members("Array("@, "Array {"@, "members: "@, members, depth),
        IvtView::Group(members) => pretty_members("Group("@, "Group {"@, "members: "@, members, depth),
        IvtView::KeyValue(key, value, _) => pretty_pair(pretty(*key, depth + 2), pretty(*value, depth + 2), depth),
        IvtView::Occur(limit, inner) => pretty_occur(
            pretty_limit(limit, depth + 2),
            pretty(*inner, depth + 2),
            depth,
        ),
        IvtView::Unwrap(name) => pretty_reference("Unwrap("@, name, depth),
        IvtView::Range(start, end, inclusive) => pretty_range(
            pretty(*start, depth + 2),
            pretty(*end, depth + 2),
            inclusive,
            depth,
        ),
    }
}

/// Each named rule on lines of its own, one level deep: its name as `Debug`
/// writes it, a colon, its tree, and a comma.
pub open spec fn pretty_entries(entries: Seq<(Seq<char>, IvtView)>) -> Seq<char>
    decreases entries.len(),
{
    if entries.len() == 0 {
        Seq::empty()
    } else {
        pretty_entries(entries.drop_last()) + indent(1) + debug_text(entries.last().0) + ": "@ + pretty(
            entries.last().1,
            1,
        ) + ",\n"@
    }
}

/// A rule set, laid out: its rules between braces, each on lines of its own.
pub open spec fn pretty_rules(entries: Seq<(Seq<char>, IvtView)>) -> Seq<char> {
    if entries.len() == 0 {
        "{}"@
    } else {
        "{\n"@ + pretty_entries(entries) + "}"@
    }
}

/// Joining three texts gives the same, whichever two are joined first.
proof fn lemma_join(a: Seq<char>, b: Seq<char>, c: Seq<char>)
    ensures
        (a + b) + c == a + (b + c),
{
    assert((a + b) + c =~= a + (b + c));
}

/// The indentation one level deeper.
pub(crate) fn deeper(pad: &str, Ghost(depth): Ghost<nat>) -> (next: String)
    requires
        pad@ == indent(depth),
    ensures
        next@ == indent(depth + 1),
{
    let mut next = pad.to_owned();
    next.append("    ");
    next
}

/// Writes the start of what is laid out at a depth.
fn write_opening(head: &str, inner: &str, Ghost(depth): Ghost<nat>, out: &mut String)
    requires
        inner@ == indent(depth + 1),
    ensures
        final(out)@ == old(out)@ + opening(head@, depth),
{
    let ghost start = out@;
    out.append(head);
    out.append("\n");
    out.append(inner);
    assert(out@ =~= start + opening(head@, depth));
}

/// Writes what stands between two things inside what is laid out at a depth.
fn write_between(inner: &str, Ghost(depth): Ghost<nat>, out: &mut String)
    requires
        inner@ == indent(depth + 1),
    ensures
        final(out)@ == old(out)@ + between(depth),
{
    let ghost start = out@;
    out.append(",\n");
    out.append(inner);
    assert(out@ =~= start + between(depth));
}

/// Writes the end of what is laid out at a depth.
fn write_closing(tail: &str, pad: &str, Ghost(depth): Ghost<nat>, out: &mut String)
    requires
        pad@ == indent(depth),
    ensures
        final(out)@ == old(out)@ + closing(tail@, depth),
{
    let ghost start = out@;
    out.append(",\n");
    out.append(pad);
    out.append(tail);
    assert(out@ =~= start + closing(tail@, depth));
}

/// Writes bytes, laid out at a depth.
fn write_pretty_bytes(bytes: &Vec<u8>, pad: &str, Ghost(depth): Ghost<nat>, out: &mut String)
    requires
        pad@ == indent(depth),
    ensures
        final(out)@ == old(out)@ + pretty_bytes(bytes@, depth),
{
    let ghost start = out@;
    if bytes.len() == 0 {
        out.append("[]");
        return ;
    }
    let inner = deeper(pad, Ghost(depth));
    out.append("[\n");
    let ghost begun = out@;
    let mut i: usize = 0;
    assert(bytes@.take(0) =~= Seq::empty());
    assert(out@ =~= begun + pretty_byte_lines(bytes@.take(0), depth + 1));
    while i < bytes.len()
        invariant
            inner@ == indent(depth + 1),
            i <= bytes.len(),
            out@ == begun + pretty_byte_lines(bytes@.take(i as int), depth + 1),
        decreases bytes.len() - i,
    {
        out.append(inner.as_str());
        write_decimal(bytes[i] as u128, out);
        out.append(",\n");
        proof {
            let next = bytes@.take(i + 1);
            assert(next.drop_last() =~= bytes@.take(i as int));
            assert(next.last() == bytes@[i as int]);
            assert(out@ =~= begun + pretty_byte_lines(next, depth + 1));
        }
        i += 1;
    }
    assert(bytes@.take(i as int) =~= bytes@);
    out.append(pad);
    out.append("]");
    assert(out@ =~= start + pretty_bytes(bytes@, depth));
}

/// Writes a scalar, laid out at a depth.
fn write_pretty_scalar(scalar: &Scalar, pad: &str, Ghost(depth): Ghost<nat>, out: &mut String)
    requires
        pad@ == indent(depth),
    ensures
        final(out)@ == old(out)@ + pretty_scalar(scalar@, depth),
{
    let ghost start = out@;
    let inner = deeper(pad, Ghost(depth));
    match scalar {
        Scalar::Bool(b) => {
            write_opening("Bool(", inner.as_str(), Ghost(depth), out);
            if *b {
                out.append("true");
            } else {
                out.append("false");
            }
        },
        Scalar::Int(i) => {
            write_opening("Int(", inner.as_str(), Ghost(depth), out);
            write_int(*i, out);
        },
        Scalar::Float(bits) => {
            write_opening("Float(", inner.as_str(), Ghost(depth), out);
            out.append("bits: ");
            write_decimal(*bits as u128, out);
        },
        Scalar::Text(t) => {
            write_opening("Text(", inner.as_str(), Ghost(depth), out);
            out.append(text_debug(t.as_str()).as_str());
        },
        Scalar::Bytes(b) => {
            write_opening("Bytes(", inner.as_str(), Ghost(depth), out);
            write_pretty_bytes(b, inner.as_str(), Ghost(depth + 1), out);
        },
    }
    write_closing(")", pad, Ghost(depth), out);
    assert(out@ =~= start + pretty_scalar(scalar@, depth));
}

/// Writes an occurrence limit, laid out at a depth.
fn write_pretty_limit(limit: &OccurLimit, pad: &str, Ghost(depth): Ghost<nat>, out: &mut String)
    requires
        pad@ == indent(depth),
    ensures
        final(out)@ == old(out)@ + pretty_limit(*limit, depth),
{
    let ghost start = out@;
    match limit {
        OccurLimit::Optional => {
            out.append("Optional");
        },
        OccurLimit::ZeroOrMore => {
            out.append("ZeroOrMore");
        },
        OccurLimit::OneOrMore => {
            out.append("OneOrMore");
        },
        OccurLimit::Numbered(n, m) => {
            let inner = deeper(pad, Ghost(depth));
            write_opening("Numbered(", inner.as_str(), Ghost(depth), out);
            write_decimal(*n as u128, out);
            write_between(inner.as_str(), Ghost(depth), out);
            write_decimal(*m as u128, out);
            write_closing(")", pad, Ghost(depth), out);
        },
    }
    assert(out@ =~= start + pretty_limit(*limit, depth));
}

/// Writes a list of nodes, laid out at a depth.
fn write_pretty_list(nodes: &Vec<Ivt>, pad: &str, Ghost(depth): Ghost<nat>, out: &mut String)
    requires
        pad@ == indent(depth),
    ensures
        final(out)@ == old(out)@ + pretty_list(node_views(nodes@), depth),
    decreases nodes, 1nat,
{
    let ghost start = out@;
    let ghost views = node_views(nodes@);
    proof {
        lemma_node_views(nodes@);
    }
    if nodes.len() == 0 {
        out.append("[]");
        return ;
    }
    let inner = deeper(pad, Ghost(depth));
    out.append("[\n");
    let ghost begun = out@;
    let mut i: usize = 0;
    assert(views.take(0) =~= Seq::empty());
    assert(out@ =~= begun + pretty_lines(views.take(0), depth + 1));
    while i < nodes.len()
        invariant
            inner@ == indent(depth + 1),
            views == node_views(nodes@),
            views.len() == nodes.len(),
            forall|j: int| 0 <= j < nodes.len() ==> #[trigger] views[j] == nodes[j]@,
            i <= nodes.len(),
            out@ == begun + pretty_lines(views.take(i as int), depth + 1),
        decreases nodes.len() - i,
    {
        out.append(inner.as_str());
        write_pretty(&nodes[i], inner.as_str(), Ghost(depth + 1), out);
        out.append(",\n");
        proof {
            let next = views.take(i + 1);
            assert(next.drop_last() =~= views.take(i as int));
            assert(next.last() == views[i as int]);
            assert(out@ =~= begun + pretty_lines(next, depth + 1));
        }
        i += 1;
    }
    assert(views.take(i as int) =~= views);
    out.append(pad);
    out.append("]");
    assert(out@ =~= start + pretty_list(views, depth));
}

/// Writes a list of nodes as the one field of a variant, laid out at a
/// depth.
fn write_pretty_members(
    outer: &str,
    inner: &str,
    field: &str,
    nodes: &Vec<Ivt>,
    pad: &str,
    Ghost(depth): Ghost<nat>,
    out: &mut String,
)
    requires
        pad@ == indent(depth),
    ensures
        final(out)@ == old(out)@ + pretty_members(outer@, inner@, field@, node_views(nodes@), depth),
    decreases nodes, 2nat,
{
    let ghost start = out@;
    let pad1 = deeper(pad, Ghost(depth));
    let pad2 = deeper(pad1.as_str(), Ghost(depth + 1));
    write_opening(outer, pad1.as_str(), Ghost(depth), out);
    write_opening(inner, pad2.as_str(), Ghost(depth + 1), out);
    out.append(field);
    write_pretty_list(nodes, pad2.as_str(), Ghost(depth + 2), out);
    write_closing("}", pad1.as_str(), Ghost(depth + 1), out);
    write_closing(")", pad, Ghost(depth), out);
    assert(out@ =~= start + pretty_members(outer@, inner@, field@, node_views(nodes@), depth));
}

/// Writes a name as the one field of a reference, laid out at a depth.
fn write_pretty_reference(outer: &str, name: &str, pad: &str, Ghost(depth): Ghost<nat>, out: &mut String)
    requires
        pad@ == indent(depth),
    ensures
        final(out)@ == old(out)@ + pretty_reference(outer@, name@, depth),
{
    let ghost start = out@;
    let pad1 = deeper(pad, Ghost(depth));
    let pad2 = deeper(pad1.as_str(), Ghost(depth + 1));
    write_opening(outer, pad1.as_str(), Ghost(depth), out);
    write_opening("Rule {", pad2.as_str(), Ghost(depth + 1), out);
    out.append("name: ");
    out.append(text_debug(name).as_str());
    write_closing("}", pad1.as_str(), Ghost(depth + 1), out);
    write_closing(")", pad, Ghost(depth), out);
    assert(out@ =~= start + pretty_reference(outer@, name@, depth));
}

/// Writes a key/value pair, laid out at a depth.
fn write_pretty_pair(node: &Ivt, pad: &str, Ghost(depth): Ghost<nat>, out: &mut String)
    requires
        pad@ == indent(depth),
        node is KeyValue,
    ensures
        final(out)@ == old(out)@ + pretty(node@, depth),
    decreases node, 0nat,
{
    let ghost start = out@;
    if let Ivt::KeyValue(key, value, _) = node {
        let pad1 = deeper(pad, Ghost(depth));
        let pad2 = deeper(pad1.as_str(), Ghost(depth + 1));
        write_opening("KeyValue(", pad1.as_str(), Ghost(depth), out);
        write_opening("KeyValue(", pad2.as_str(), Ghost(depth + 1), out);
        write_pretty(key, pad2.as_str(), Ghost(depth + 2), out);
        write_between(pad2.as_str(), Ghost(depth + 1), out);
        write_pretty(value, pad2.as_str(), Ghost(depth + 2), out);
        write_closing(")", pad1.as_str(), Ghost(depth + 1), out);
        write_closing(")", pad, Ghost(depth), out);
        assert(out@ =~= start + pretty_pair(pretty((**key)@, depth + 2), pretty((**value)@, depth + 2), depth));
    }
}

/// Writes an occurrence, laid out at a depth.
fn write_pretty_occur(node: &Ivt, pad: &str, Ghost(depth): Ghost<nat>, out: &mut String)
    requires
        pad@ == indent(depth),
        node is Occur,
    ensures
        final(out)@ == old(out)@ + pretty(node@, depth),
    decreases node, 0nat,
{
    let ghost start = out@;
    if let Ivt::Occur(limit, inner) = node {
        let pad1 = deeper(pad, Ghost(depth));
        let pad2 = deeper(pad1.as_str(), Ghost(depth + 1));
        write_opening("Occur(", pad1.as_str(), Ghost(depth), out);
        write_opening("Occur {", pad2.as_str(), Ghost(depth + 1), out);
        out.append("limit: ");
        write_pretty_limit(limit, pad2.as_str(), Ghost(depth + 2), out);
        write_between(pad2.as_str(), Ghost(depth + 1), out);
        out.append("node: ");
        write_pretty(inner, pad2.as_str(), Ghost(depth + 2), out);
        write_closing("}", pad1.as_str(), Ghost(depth + 1), out);
        write_closing(")", pad, Ghost(depth), out);
        assert(out@ =~= start + pretty_occur(pretty_limit(*limit, depth + 2), pretty((**inner)@, depth + 2), depth));
    }
}

/// Writes a range, laid out at a depth.
fn write_pretty_range(node: &Ivt, pad: &str, Ghost(depth): Ghost<nat>, out: &mut String)
    requires
        pad@ == indent(depth),
        node is Range,
    ensures
        final(out)@ == old(out)@ + pretty(node@, depth),
    decreases node, 0nat,
{
    let ghost start = out@;
    if let Ivt::Range(start_node, end_node, inclusive) = node {
        let pad1 = deeper(pad, Ghost(depth));
        let pad2 = deeper(pad1.as_str(), Ghost(depth + 1));
        let ghost first = pretty((**start_node)@, depth + 2);
        let ghost second = pretty((**end_node)@, depth + 2);
        let ghost flag = if *inclusive {
            "true"@
        } else {
            "false"@
        };
        write_opening("Range(", pad1.as_str(), Ghost(depth), out);
        let ghost mut written = opening("Range("@, depth);
        write_opening("Range {", pad2.as_str(), Ghost(depth + 1), out);
        proof {
            lemma_join(start, written, opening("Range {"@, depth + 1));
            written = written + opening("Range {"@, depth + 1);
        }
        out.append("start: ");
        proof {
            lemma_join(start, written, "start: "@);
            written = written + "start: "@;
        }
        write_pretty(start_node, pad2.as_str(), Ghost(depth + 2), out);
        proof {
            lemma_join(start, written, first);
            written = written + first;
        }
        write_between(pad2.as_str(), Ghost(depth + 1), out);
        proof {
            lemma_join(start, written, between(depth + 1));
            written = written + between(depth + 1);
        }
        out.append("end: ");
        proof {
            lemma_join(start, written, "end: "@);
            written = written + "end: "@;
        }
        write_pretty(end_node, pad2.as_str(), Ghost(depth + 2), out);
        proof {
            lemma_join(start, written, second);
            written = written + second;
        }
        write_between(pad2.as_str(), Ghost(depth + 1), out);
        proof {
            lemma_join(start, written, between(depth + 1));
            written = written + between(depth + 1);
        }
        out.append("inclusive: ");
        proof {
            lemma_join(start, written, "inclusive: "@);
            written = written + "inclusive: "@;
        }
        if *inclusive {
            out.append("true");
        } else {
            out.append("false");
        }
        proof {
            lemma_join(start, written, flag);
            written = written + flag;
        }
        write_closing("}", pad1.as_str(), Ghost(depth + 1), out);
        proof {
            lemma_join(start, written, closing("}"@, depth + 1));
            written = written + closing("}"@, depth + 1);
        }
        write_closing(")", pad, Ghost(depth), out);
        proof {
            lemma_join(start, written, closing(")"@, depth));
            written = written + closing(")"@, depth);
        }
        assert(written == pretty_range(first, second, *inclusive, depth));
    }
}

/// Writes a node and its whole subtree, laid out at a depth.
pub(crate) fn write_pretty(node: &Ivt, pad: &str, Ghost(depth): Ghost<nat>, out: &mut String)
    requires
        pad@ == indent(depth),
    ensures
        final(out)@ == old(out)@ + pretty(node@, depth),
    decreases node, 1nat,
{
    let ghost start = out@;
    match node {
        Ivt::Literal(l) => {
            let pad1 = deeper(pad, Ghost(depth));
            write_opening("Literal(", pad1.as_str(), Ghost(depth), out);
            write_pretty_scalar(l, pad1.as_str(), Ghost(depth + 1), out);
            write_closing(")", pad, Ghost(depth), out);
            assert(out@ =~= start + pretty(node@, depth));
        },
        Ivt::PreludeType(p) => {
            let pad1 = deeper(pad, Ghost(depth));
            write_opening("PreludeType(", pad1.as_str(), Ghost(depth), out);
            out.append(prelude_str(*p));
            write_closing(")", pad, Ghost(depth), out);
            assert(out@ =~= start + pretty(node@, depth));
        },
        Ivt::Rule(name) => {
            write_pretty_reference("Rule(", name.as_str(), pad, Ghost(depth), out);
        },
        Ivt::Choice(options) => {
            write_pretty_members("Choice(", "Choice {", "options: ", options, pad, Ghost(depth), out);
        },
        Ivt::Mapping(members) => {
            write_pretty_members("Map(", "Map {", "members: ", members, pad, Ghost(depth), out);
        },
        Ivt::Array(members) => {
            write_pretty_members("Array(", "Array {", "members: ", members, pad, Ghost(depth), out);
        },
        Ivt::Group(members) => {
            write_pretty_members("Group(", "Group {", "members: ", members, pad, Ghost(depth), out);
        },
        Ivt::KeyValue(_, _, _) => {
            write_pretty_pair(node, pad, Ghost(depth), out);
        },
        Ivt::Occur(_, _) => {
            write_pretty_occur(node, pad, Ghost(depth), out);
        },
        Ivt::Unwrap(name) => {
            write_pretty_reference("Unwrap(", name.as_str(), pad, Ghost(depth), out);
        },
        Ivt::Range(_, _, _) => {
            write_pretty_range(node, pad, Ghost(depth), out);
        },
    }
}

} // verus!
