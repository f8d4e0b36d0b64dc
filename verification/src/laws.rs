use vstd::prelude::*;

use crate::classes::{char_satisfies, NodeV};
use crate::matcher::{advance_after, greedy_end, matches_spec, walk, walk_end};
use crate::parser::{
    close_index, lemma_close_index, literal_node, parse_from, parse_spec, start_anchor_node,
    CompileError,
};

verus! {

/// No start anchor stands anywhere but as the first node.
pub open spec fn start_anchor_only_first(nodes: Seq<NodeV>) -> bool {
    forall|k: int| 1 <= k < nodes.len() ==> !(nodes[k] is StartAnchor)
}

/// No end anchor stands anywhere but as the last node.
pub open spec fn end_anchor_only_last(nodes: Seq<NodeV>) -> bool {
    forall|k: int| 0 <= k < nodes.len() - 1 ==> !(nodes[k] is EndAnchor)
}

proof fn lemma_push_keeps_anchors(acc: Seq<NodeV>, x: NodeV)
    requires
        start_anchor_only_first(acc),
        forall|k: int| 0 <= k < acc.len() ==> !(acc[k] is EndAnchor),
        !(x is StartAnchor),
    ensures
        start_anchor_only_first(acc.push(x)),
        end_anchor_only_last(acc.push(x)),
        !(x is EndAnchor) ==> forall|k: int|
            0 <= k < acc.push(x).len() ==> !((#[trigger] acc.push(x)[k]) is EndAnchor),
{
    let w = acc.push(x);
    assert forall|k: int| 0 <= k < w.len() implies (w[k] == if k < acc.len() {
        acc[k]
    } else {
        x
    }) by {}
}

proof fn lemma_wrap_last_keeps_anchors(acc: Seq<NodeV>, x: NodeV)
    requires
        acc.len() > 0,
        start_anchor_only_first(acc),
        forall|k: int| 0 <= k < acc.len() ==> !(acc[k] is EndAnchor),
        !(x is StartAnchor),
    ensures
        start_anchor_only_first(acc.take(acc.len() - 1).push(x)),
        end_anchor_only_last(acc.take(acc.len() - 1).push(x)),
        !(x is EndAnchor) ==> forall|k: int|
            0 <= k < acc.take(acc.len() - 1).push(x).len() ==> !((#[trigger] acc.take(
                acc.len() - 1,
            ).push(x)[k]) is EndAnchor),
{
    let w = acc.take(acc.len() - 1).push(x);
    assert forall|k: int| 0 <= k < w.len() implies (w[k] == if k < acc.len() - 1 {
        acc[k]
    } else {
        x
    }) by {}
}

proof fn lemma_parse_from_anchors(p: Seq<char>, i: int, acc: Seq<NodeV>, nodes: Seq<NodeV>)
    requires
        start_anchor_only_first(acc),
        forall|k: int| 0 <= k < acc.len() ==> !(acc[k] is EndAnchor),
        parse_from(p, i, acc) == Ok::<Seq<NodeV>, CompileError>(nodes),
    ensures
        start_anchor_only_first(nodes),
        end_anchor_only_last(nodes),
    decreases p.len() - i,
{
    if i >= p.len() {
        // nodes == acc, whose anchors are already in place
    } else {
        let c = p[i];
        if c == '$' && i + 1 >= p.len() && acc.len() > 0 {
            let wrapped = acc.take(acc.len() - 1).push(NodeV::EndAnchor(Box::new(acc.last())));
            assert(parse_from(p, i + 1, wrapped) == Ok::<Seq<NodeV>, CompileError>(wrapped));
            lemma_wrap_last_keeps_anchors(acc, NodeV::EndAnchor(Box::new(acc.last())));
        } else if c == '\\' {
            if i + 1 < p.len() {
                let e = p[i + 1];
                if e == 'd' {
                    lemma_push_keeps_anchors(acc, NodeV::Digit);
                    lemma_parse_from_anchors(p, i + 2, acc.push(NodeV::Digit), nodes);
                } else if e == 'w' {
                    lemma_push_keeps_anchors(acc, NodeV::Alphanumeric);
                    lemma_parse_from_anchors(p, i + 2, acc.push(NodeV::Alphanumeric), nodes);
                } else if e == '\\' || e == '[' || e == '^' || e == '$' || e == '+' {
                    lemma_push_keeps_anchors(acc, literal_node(e));
                    lemma_parse_from_anchors(p, i + 2, acc.push(literal_node(e)), nodes);
                }
            }
        } else if c == '[' {
            if i + 1 < p.len() {
                if p[i + 1] == '^' {
                    lemma_close_index(p, i + 2, ']');
                    match close_index(p, i + 2, ']') {
                        Some(ci) => {
                            let x = NodeV::NegativeCharGroup(p.subrange(i + 2, ci));
                            lemma_push_keeps_anchors(acc, x);
                            lemma_parse_from_anchors(p, ci + 1, acc.push(x), nodes);
                        },
                        None => {},
                    }
                } else {
                    lemma_close_index(p, i + 1, ']');
                    match close_index(p, i + 1, ']') {
                        Some(ci) => {
                            let x = NodeV::CharGroup(p.subrange(i + 1, ci));
                            lemma_push_keeps_anchors(acc, x);
                            lemma_parse_from_anchors(p, ci + 1, acc.push(x), nodes);
                        },
                        None => {},
                    }
                }
            }
        } else if c == '^' {
            if i + 1 < p.len() && acc.len() == 0 {
                let w = acc.push(start_anchor_node(p[i + 1]));
                assert(w.len() == 1 && !(w[0] is EndAnchor));
                lemma_parse_from_anchors(p, i + 2, w, nodes);
            }
        } else if c == '$' {
            if i + 1 >= p.len() {
                lemma_parse_from_anchors(p, i + 1, acc, nodes);
            }
        } else if c == '+' {
            if acc.len() > 0 {
                let x = NodeV::OneOrMore(Box::new(acc.last()));
                lemma_wrap_last_keeps_anchors(acc, x);
                lemma_parse_from_anchors(p, i + 1, acc.take(acc.len() - 1).push(x), nodes);
            }
        } else {
            lemma_push_keeps_anchors(acc, literal_node(c));
            lemma_parse_from_anchors(p, i + 1, acc.push(literal_node(c)), nodes);
        }
    }
}

/// The compiler only places anchors where they belong: in a compiled node
/// sequence a start anchor stands only as the first node and an end anchor
/// only as the last.
pub proof fn lemma_compiled_anchors_well_placed(p: Seq<char>, nodes: Seq<NodeV>)
    requires
        parse_spec(p) == Ok::<Seq<NodeV>, CompileError>(nodes),
    ensures
        start_anchor_only_first(nodes),
        end_anchor_only_last(nodes),
{
    lemma_parse_from_anchors(p, 0, Seq::empty(), nodes);
}

/// A pattern that opens with a start anchor never matches a line whose first
/// character differs from the anchor's payload (in particular an empty line),
/// regardless of the rest of the line.
pub proof fn lemma_start_anchor_mismatch(line: Seq<char>, nodes: Seq<NodeV>, payload: char)
    requires
        nodes.len() > 0,
        nodes[0] == NodeV::StartAnchor(payload),
        line.len() == 0 || line[0] != payload,
    ensures
        !matches_spec(line, nodes),
{
}

/// A successful walk under a trailing end anchor consumes the line to its
/// very end: no input remains unconsumed after the wrapped node's position.
pub proof fn lemma_end_anchor_walk_consumes_line(
    line: Seq<char>,
    nodes: Seq<NodeV>,
    k: int,
    pos: int,
)
    requires
        0 <= k < nodes.len(),
        nodes.last() is EndAnchor,
        walk(line, nodes, k, pos),
    ensures
        walk_end(line, nodes, k, pos) == line.len(),
    decreases nodes.len() - k,
{
    if k < nodes.len() - 1 {
        lemma_end_anchor_walk_consumes_line(
            line,
            nodes,
            k + 1,
            advance_after(line, nodes[k], pos + 1),
        );
    }
}

/// A pattern that ends in an end anchor matches only when some start offset
/// admits a walk that leaves no input behind; in particular the line's final
/// character must satisfy the wrapped node.
pub proof fn lemma_end_anchor_match_consumes_line(line: Seq<char>, nodes: Seq<NodeV>)
    requires
        nodes.len() > 0,
        nodes.last() is EndAnchor,
        matches_spec(line, nodes),
    ensures
        exists|i: int|
            0 <= i < line.len() && walk(line, nodes, 0, i) && walk_end(line, nodes, 0, i)
                == line.len(),
        line.len() > 0 && char_satisfies(*nodes.last()->EndAnchor_0, line[line.len() - 1]),
{
    let i = choose|i: int| 0 <= i < line.len() && walk(line, nodes, 0, i);
    lemma_end_anchor_walk_consumes_line(line, nodes, 0, i);
}

/// Compilation is deterministic: any two node sequences compiled from the
/// same pattern string are identical.
pub proof fn lemma_compile_deterministic(p: Seq<char>, s1: Seq<NodeV>, s2: Seq<NodeV>)
    requires
        parse_spec(p) == Ok::<Seq<NodeV>, CompileError>(s1),
        parse_spec(p) == Ok::<Seq<NodeV>, CompileError>(s2),
    ensures
        s1 == s2,
{
}

/// Greedy consumption is maximal: the resolver consumes every contiguous
/// character satisfying the wrapped node and stops only at the line's end or
/// at the first character that fails the test.
pub proof fn lemma_greedy_end_maximal(line: Seq<char>, pos: int, inner: NodeV)
    requires
        0 <= pos <= line.len(),
    ensures
        pos <= greedy_end(line, pos, inner) <= line.len(),
        forall|j: int| pos <= j < greedy_end(line, pos, inner) ==> char_satisfies(inner, line[j]),
        greedy_end(line, pos, inner) < line.len() ==> !char_satisfies(
            inner,
            line[greedy_end(line, pos, inner)],
        ),
    decreases line.len() - pos,
{
    if pos < line.len() && char_satisfies(inner, line[pos]) {
        lemma_greedy_end_maximal(line, pos + 1, inner);
    }
}

/// A pattern that is a single negated character group never matches a line
/// drawn entirely from that group's characters.
pub proof fn lemma_negative_group_rejects(line: Seq<char>, group: Seq<char>)
    requires
        forall|i: int| 0 <= i < line.len() ==> group.contains(line[i]),
    ensures
        !matches_spec(line, seq![NodeV::NegativeCharGroup(group)]),
{
    let nodes = seq![NodeV::NegativeCharGroup(group)];
    assert forall|i: int| 0 <= i < line.len() implies !walk(line, nodes, 0, i) by {
        assert(nodes[0] == NodeV::NegativeCharGroup(group));
        assert(group.contains(line[i]));
    }
}

} // verus!
