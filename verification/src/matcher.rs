use vstd::prelude::*;

use crate::classes::{
    char_class_matches, char_satisfies, group_contains, is_alnum_char, is_digit_char, node_view,
    views, CharacterClass, NodeV,
};
use crate::parser::{parse_pattern, parse_spec, CompileError};

verus! {

/// Where greedy consumption starting at `pos` stops: the first position at or
/// after `pos` whose character no longer satisfies `inner`, or the end of the
/// line.
pub open spec fn greedy_end(line: Seq<char>, pos: int, inner: NodeV) -> int
    decreases line.len() - pos,
{
    if 0 <= pos < line.len() && char_satisfies(inner, line[pos]) {
        greedy_end(line, pos + 1, inner)
    } else {
        pos
    }
}

/// The input cursor after a node has matched at `pos - 1`: a one-or-more node
/// additionally consumes every following character that still satisfies its
/// wrapped node; every other node leaves the cursor alone.
pub open spec fn advance_after(line: Seq<char>, node: NodeV, pos: int) -> int {
    match node {
        NodeV::OneOrMore(inner) => greedy_end(line, pos, *inner),
        _ => pos,
    }
}

/// One left-to-right walk of the compiled nodes from index `k` on, with the
/// input cursor at `pos`: each node must match the current character, a
/// one-or-more node then consumes greedily, and a walk ending in an end
/// anchor succeeds only if it consumed the whole rest of the line.
pub open spec fn walk(line: Seq<char>, nodes: Seq<NodeV>, k: int, pos: int) -> bool
    decreases nodes.len() - k,
{
    if !(0 <= k < nodes.len()) {
        false
    } else if !(0 <= pos < line.len()) {
        false
    } else if !char_satisfies(nodes[k], line[pos]) {
        false
    } else {
        let next = advance_after(line, nodes[k], pos + 1);
        if k == nodes.len() - 1 {
            if nodes[k] is EndAnchor {
                next == line.len()
            } else {
                true
            }
        } else {
            walk(line, nodes, k + 1, next)
        }
    }
}

/// The input cursor after a walk from node `k` at position `pos` has processed
/// every remaining node (meaningful for a successful walk).
pub open spec fn walk_end(line: Seq<char>, nodes: Seq<NodeV>, k: int, pos: int) -> int
    decreases nodes.len() - k,
{
    if !(0 <= k < nodes.len()) {
        pos
    } else {
        let next = advance_after(line, nodes[k], pos + 1);
        if k == nodes.len() - 1 {
            next
        } else {
            walk_end(line, nodes, k + 1, next)
        }
    }
}

/// The fast rejection on a leading start anchor: the line must begin with the
/// anchor's payload character.
pub open spec fn start_precheck(line: Seq<char>, nodes: Seq<NodeV>) -> bool {
    if nodes.len() > 0 && nodes[0] is StartAnchor {
        line.len() > 0 && line[0] == nodes[0]->StartAnchor_0
    } else {
        true
    }
}

/// The fast rejection on a trailing end anchor: the line's final character
/// must satisfy the wrapped node.
pub open spec fn end_precheck(line: Seq<char>, nodes: Seq<NodeV>) -> bool {
    if nodes.len() > 0 && nodes.last() is EndAnchor {
        line.len() > 0 && char_satisfies(*nodes.last()->EndAnchor_0, line[line.len() - 1])
    } else {
        true
    }
}

/// What the match evaluator decides: both anchor prechecks pass and some start
/// offset admits a successful walk of the whole node sequence. An empty node
/// sequence matches nothing.
pub open spec fn matches_spec(line: Seq<char>, nodes: Seq<NodeV>) -> bool {
    &&& start_precheck(line, nodes)
    &&& end_precheck(line, nodes)
    &&& exists|i: int| 0 <= i < line.len() && walk(line, nodes, 0, i)
}

/// Quantifier Resolver: if the node is a one-or-more quantifier, advance the
/// cursor past every contiguous character that satisfies its wrapped node
/// (greedy, no backtracking: consumed characters are never given back);
/// otherwise leave the cursor alone.
pub fn handle_quantifier(input_line: &str, pos: usize, pattern: &CharacterClass) -> (r: usize)
    requires
        pos <= input_line@.len(),
    ensures
        pos <= r <= input_line@.len(),
        r as int == advance_after(input_line@, pattern@, pos as int),
{
    match pattern {
        CharacterClass::OneOrMore(inner) => {
            let n = input_line.unicode_len();
            let mut p = pos;
            loop
                invariant
                    n == input_line@.len(),
                    pos <= p <= n,
                    greedy_end(input_line@, pos as int, node_view(**inner)) == greedy_end(
                        input_line@,
                        p as int,
                        node_view(**inner),
                    ),
                ensures
                    pos <= p <= n,
                    p as int == greedy_end(input_line@, pos as int, node_view(**inner)),
                decreases n - p,
            {
                if p >= n {
                    break;
                }
                if !char_class_matches(input_line.get_char(p), inner) {
                    break;
                }
                p += 1;
            }
            p
        },
        _ => pos,
    }
}

/// Match Evaluator: after the two anchor prechecks, try every start offset of
/// the line in order and walk the compiled nodes left to right from it,
/// reporting whether any offset succeeds.
pub fn match_nodes(input_line: &str, patterns: &Vec<CharacterClass>) -> (r: bool)
    ensures
        r == matches_spec(input_line@, views(patterns@)),
{
    let ghost line = input_line@;
    let ghost nodes = views(patterns@);
    let n = input_line.unicode_len();

    if patterns.len() == 0 {
        return false;
    }

    match &patterns[0] {
        CharacterClass::StartAnchor(a) => {
            if n == 0 {
                return false;
            }
            if input_line.get_char(0) != *a {
                return false;
            }
        },
        _ => {},
    }

    match &patterns[patterns.len() - 1] {
        CharacterClass::EndAnchor(inner) => {
            if n == 0 {
                return false;
            }
            if !char_class_matches(input_line.get_char(n - 1), inner) {
                return false;
            }
        },
        _ => {},
    }

    let mut i: usize = 0;
    while i < n
        invariant
            n == line.len(),
            line == input_line@,
            nodes == views(patterns@),
            nodes.len() == patterns@.len(),
            patterns@.len() > 0,
            i <= n,
            start_precheck(line, nodes),
            end_precheck(line, nodes),
            forall|j: int| 0 <= j < i ==> !walk(line, nodes, 0, j),
        decreases n - i,
    {
        let mut k: usize = 0;
        let mut pos: usize = i;
        loop
            invariant_except_break
                n == line.len(),
                line == input_line@,
                nodes == views(patterns@),
                nodes.len() == patterns@.len(),
                start_precheck(line, nodes),
                end_precheck(line, nodes),
                i < n,
                k < patterns@.len(),
                pos <= n,
                walk(line, nodes, 0, i as int) == walk(line, nodes, k as int, pos as int),
            ensures
                !walk(line, nodes, 0, i as int),
            decreases patterns@.len() - k,
        {
            if pos >= n {
                break;
            }
            let ch = input_line.get_char(pos);
            if !char_class_matches(ch, &patterns[k]) {
                break;
            }
            pos += 1;
            pos = handle_quantifier(input_line, pos, &patterns[k]);
            if k == patterns.len() - 1 {
                match &patterns[k] {
                    CharacterClass::EndAnchor(_) => {
                        if pos < n {
                            break;
                        } else {
                            return true;
                        }
                    },
                    _ => {
                        return true;
                    },
                }
            }
            k += 1;
        }
        i += 1;
    }
    false
}

/// The string-level test the original predicate exposes: whether any position
/// of the input satisfies the node (for anchors, whether the input starts with
/// the payload, the wrapped node deciding for an end anchor).
pub open spec fn str_matches(line: Seq<char>, n: NodeV) -> bool
    decreases n,
{
    match n {
        NodeV::Literal(l) => line.contains(l),
        NodeV::CharGroup(g) => exists|i: int| 0 <= i < line.len() && g.contains(line[i]),
        NodeV::NegativeCharGroup(g) => forall|i: int| 0 <= i < line.len() ==> !g.contains(line[i]),
        NodeV::Digit => exists|i: int| 0 <= i < line.len() && is_digit_char(line[i]),
        NodeV::Alphanumeric => exists|i: int|
            0 <= i < line.len() && is_alnum_char(line[i]),
        NodeV::StartAnchor(a) => line.len() > 0 && line[0] == a,
        NodeV::EndAnchor(inner) => str_matches(line, *inner),
        NodeV::OneOrMore(inner) => str_matches(line, *inner),
    }
}

/// Whether any character of the input occurs in a group's backing string.
fn any_char_in_group(input_line: &str, group: &String) -> (r: bool)
    ensures
        r == exists|i: int| 0 <= i < input_line@.len() && group@.contains(input_line@[i]),
{
    let n = input_line.unicode_len();
    let mut i: usize = 0;
    while i < n
        invariant
            n == input_line@.len(),
            i <= n,
            forall|j: int| 0 <= j < i ==> !group@.contains(input_line@[j]),
        decreases n - i,
    {
        if group_contains(group, input_line.get_char(i)) {
            assert(group@.contains(input_line@[i as int]));
            return true;
        }
        i += 1;
    }
    false
}

/// Whether any character of the input satisfies the node as a plain character
/// test.
fn any_char_satisfies(input_line: &str, class: &CharacterClass) -> (r: bool)
    ensures
        r == exists|i: int| 0 <= i < input_line@.len() && char_satisfies(class@, input_line@[i]),
{
    let n = input_line.unicode_len();
    let mut i: usize = 0;
    while i < n
        invariant
            n == input_line@.len(),
            i <= n,
            forall|j: int| 0 <= j < i ==> !char_satisfies(class@, input_line@[j]),
        decreases n - i,
    {
        if char_class_matches(input_line.get_char(i), class) {
            assert(char_satisfies(class@, input_line@[i as int]));
            return true;
        }
        i += 1;
    }
    false
}

/// Tests a whole input string against one compiled node: literals, classes
/// and groups ask whether any character of the input satisfies them, a start
/// anchor asks whether the input begins with its payload, and the wrapping
/// nodes delegate to the node they wrap.
pub fn match_pattern(input_line: &str, pattern: &CharacterClass) -> (r: bool)
    ensures
        r == str_matches(input_line@, pattern@),
    decreases pattern,
{
    match pattern {
        CharacterClass::Literal(_) => any_char_satisfies(input_line, pattern),
        CharacterClass::CharGroup(g) => any_char_in_group(input_line, g),
        CharacterClass::NegativeCharGroup(g) => !any_char_in_group(input_line, g),
        CharacterClass::Digit => any_char_satisfies(input_line, pattern),
        CharacterClass::Alphanumeric => any_char_satisfies(input_line, pattern),
        CharacterClass::StartAnchor(a) => {
            if input_line.unicode_len() == 0 {
                false
            } else {
                input_line.get_char(0) == *a
            }
        },
        CharacterClass::EndAnchor(inner) => match_pattern(input_line, inner),
        CharacterClass::OneOrMore(inner) => match_pattern(input_line, inner),
    }
}

/// Compiles the pattern string and evaluates it against the line: the match
/// verdict on success, the compiler's typed error on a malformed pattern.
pub fn pattern_matches(input_str: &str, pattern_str: &str) -> (r: Result<bool, CompileError>)
    ensures
        (r matches Ok(m) ==> parse_spec(pattern_str@) matches Ok(nodes) && m == matches_spec(
            input_str@,
            nodes,
        )),
        (r matches Err(e) ==> parse_spec(pattern_str@) == Err::<Seq<NodeV>, CompileError>(e)),
{
    match parse_pattern(pattern_str) {
        Ok(patterns) => Ok(match_nodes(input_str, &patterns)),
        Err(e) => Err(e),
    }
}

} // verus!
