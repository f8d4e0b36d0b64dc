use vstd::prelude::*;

use crate::classes::{node_view, views, CharacterClass, NodeV};

verus! {

/// Why a pattern string failed to compile. Compilation errors are fatal to
/// the match attempt: they are surfaced to the caller, never downgraded to a
/// no-match verdict.
#[derive(Debug, PartialEq, Eq, Structural, Clone, Copy)]
pub enum CompileError {
    /// The character after a backslash is not one of the recognized escape
    /// forms, or the pattern ends right after the backslash.
    InvalidEscape,
    /// A bracket group is never closed.
    UnclosedGroup,
    /// A start anchor appears after other pattern elements, or has no payload
    /// character following it.
    MisplacedStartAnchor,
    /// An end anchor appears anywhere but as the last pattern character.
    MisplacedEndAnchor,
    /// A quantifier appears with no preceding node to wrap.
    DanglingQuantifier,
}

/// The literal node for one pattern character.
pub open spec fn literal_node(c: char) -> NodeV {
    NodeV::Literal(c)
}

/// The start-anchor node for one payload character.
pub open spec fn start_anchor_node(c: char) -> NodeV {
    NodeV::StartAnchor(c)
}

/// The first position at or after `from` holding `end_char`, if any.
pub open spec fn close_index(p: Seq<char>, from: int, end_char: char) -> Option<int>
    decreases p.len() - from,
{
    if !(0 <= from < p.len()) {
        None
    } else if p[from] == end_char {
        Some(from)
    } else {
        close_index(p, from + 1, end_char)
    }
}

/// What `close_index` finds is the first occurrence of `end_char`.
pub proof fn lemma_close_index(p: Seq<char>, from: int, end_char: char)
    ensures
        close_index(p, from, end_char) matches Some(ci) ==> from <= ci < p.len() && p[ci]
            == end_char && forall|j: int| from <= j < ci ==> p[j] != end_char,
        0 <= from && close_index(p, from, end_char) is None ==> forall|j: int|
            from <= j < p.len() ==> p[j] != end_char,
    decreases p.len() - from,
{
    if 0 <= from < p.len() && p[from] != end_char {
        lemma_close_index(p, from + 1, end_char);
    }
}

/// The single left-to-right scan of the pattern compiler, from position `i`
/// with the nodes compiled so far in `acc`.
pub open spec fn parse_from(p: Seq<char>, i: int, acc: Seq<NodeV>) -> Result<
    Seq<NodeV>,
    CompileError,
>
    decreases p.len() - i,
    via parse_from_decreases
{
    if i >= p.len() {
        Ok(acc)
    } else {
        let c = p[i];
        if c == '\\' {
            if i + 1 < p.len() {
                let e = p[i + 1];
                if e == 'd' {
                    parse_from(p, i + 2, acc.push(NodeV::Digit))
                } else if e == 'w' {
                    parse_from(p, i + 2, acc.push(NodeV::Alphanumeric))
                } else if e == '\\' || e == '[' || e == '^' || e == '$' || e == '+' {
                    parse_from(p, i + 2, acc.push(literal_node(e)))
                } else {
                    Err(CompileError::InvalidEscape)
                }
            } else {
                Err(CompileError::InvalidEscape)
            }
        } else if c == '[' {
            if i + 1 >= p.len() {
                Err(CompileError::UnclosedGroup)
            } else if p[i + 1] == '^' {
                match close_index(p, i + 2, ']') {
                    Some(ci) => parse_from(
                        p,
                        ci + 1,
                        acc.push(NodeV::NegativeCharGroup(p.subrange(i + 2, ci))),
                    ),
                    None => Err(CompileError::UnclosedGroup),
                }
            } else {
                match close_index(p, i + 1, ']') {
                    Some(ci) => parse_from(
                        p,
                        ci + 1,
                        acc.push(NodeV::CharGroup(p.subrange(i + 1, ci))),
                    ),
                    None => Err(CompileError::UnclosedGroup),
                }
            }
        } else if c == '^' {
            if i + 1 >= p.len() {
                Err(CompileError::MisplacedStartAnchor)
            } else if acc.len() > 0 {
                Err(CompileError::MisplacedStartAnchor)
            } else {
                parse_from(p, i + 2, acc.push(start_anchor_node(p[i + 1])))
            }
        } else if c == '$' {
            if i + 1 < p.len() {
                Err(CompileError::MisplacedEndAnchor)
            } else if acc.len() > 0 {
                parse_from(
                    p,
                    i + 1,
                    acc.take(acc.len() - 1).push(NodeV::EndAnchor(Box::new(acc.last()))),
                )
            } else {
                parse_from(p, i + 1, acc)
            }
        } else if c == '+' {
            if acc.len() == 0 {
                Err(CompileError::DanglingQuantifier)
            } else {
                parse_from(
                    p,
                    i + 1,
                    acc.take(acc.len() - 1).push(NodeV::OneOrMore(Box::new(acc.last()))),
                )
            }
        } else {
            parse_from(p, i + 1, acc.push(literal_node(c)))
        }
    }
}

#[via_fn]
proof fn parse_from_decreases(p: Seq<char>, i: int, acc: Seq<NodeV>) {
    if i < p.len() && p[i] == '[' && i + 1 < p.len() {
        if p[i + 1] == '^' {
            lemma_close_index(p, i + 2, ']');
        } else {
            lemma_close_index(p, i + 1, ']');
        }
    }
}

/// What the pattern compiler produces for a pattern string: the node sequence
/// of a well-formed pattern, or the reason it is malformed.
pub open spec fn parse_spec(p: Seq<char>) -> Result<Seq<NodeV>, CompileError> {
    parse_from(p, 0, Seq::empty())
}

/// Collects the characters from `from` up to the first occurrence of
/// `end_char`, returning them together with the position just past it, or
/// nothing when `end_char` never occurs.
pub fn collect_until(pattern: &str, from: usize, end_char: char) -> (r: Option<(String, usize)>)
    requires
        from <= pattern@.len(),
    ensures
        match r {
            Some(pair) => {
                &&& close_index(pattern@, from as int, end_char) == Some(pair.1 as int - 1)
                &&& from < pair.1 <= pattern@.len()
                &&& pair.0@ == pattern@.subrange(from as int, pair.1 as int - 1)
            },
            None => close_index(pattern@, from as int, end_char) is None,
        },
{
    let n = pattern.unicode_len();
    let mut j = from;
    while j < n
        invariant
            n == pattern@.len(),
            from <= j <= n,
            close_index(pattern@, from as int, end_char) == close_index(
                pattern@,
                j as int,
                end_char,
            ),
        decreases n - j,
    {
        if pattern.get_char(j) == end_char {
            assert(close_index(pattern@, j as int, end_char) == Some(j as int));
            let group = pattern.substring_char(from, j).to_owned();
            return Some((group, j + 1));
        }
        j += 1;
    }
    None
}

/// Pattern Compiler: one scan of the pattern string with one character of
/// lookahead, producing the compiled node sequence or a typed error for a
/// malformed pattern.
pub fn parse_pattern(pattern: &str) -> (r: Result<Vec<CharacterClass>, CompileError>)
    ensures
        (r matches Ok(classes) ==> parse_spec(pattern@) == Ok::<Seq<NodeV>, CompileError>(
            views(classes@),
        )),
        (r matches Err(e) ==> parse_spec(pattern@) == Err::<Seq<NodeV>, CompileError>(e)),
{
    let n = pattern.unicode_len();
    let mut char_classes: Vec<CharacterClass> = Vec::new();
    let mut i: usize = 0;

    assert(views(char_classes@) =~= Seq::<NodeV>::empty());

    while i < n
        invariant
            n == pattern@.len(),
            i <= n,
            parse_spec(pattern@) == parse_from(pattern@, i as int, views(char_classes@)),
        decreases n - i,
    {
        let ghost acc0 = views(char_classes@);
        let ch = pattern.get_char(i);
        if ch == '\\' {
            if i + 1 >= n {
                return Err(CompileError::InvalidEscape);
            }
            let e = pattern.get_char(i + 1);
            if e == 'd' {
                char_classes.push(CharacterClass::Digit);
            } else if e == 'w' {
                char_classes.push(CharacterClass::Alphanumeric);
            } else if e == '\\' || e == '[' || e == '^' || e == '$' || e == '+' {
                char_classes.push(CharacterClass::Literal(e));
            } else {
                return Err(CompileError::InvalidEscape);
            }
            assert(views(char_classes@) =~= acc0.push(node_view(char_classes@.last())));
            i += 2;
        } else if ch == '[' {
            if i + 1 >= n {
                return Err(CompileError::UnclosedGroup);
            }
            if pattern.get_char(i + 1) == '^' {
                match collect_until(pattern, i + 2, ']') {
                    Some((group, after)) => {
                        char_classes.push(CharacterClass::NegativeCharGroup(group));
                        assert(views(char_classes@) =~= acc0.push(
                            NodeV::NegativeCharGroup(
                                pattern@.subrange(i + 2, after as int - 1),
                            ),
                        ));
                        i = after;
                    },
                    None => {
                        return Err(CompileError::UnclosedGroup);
                    },
                }
            } else {
                match collect_until(pattern, i + 1, ']') {
                    Some((group, after)) => {
                        char_classes.push(CharacterClass::CharGroup(group));
                        assert(views(char_classes@) =~= acc0.push(
                            NodeV::CharGroup(pattern@.subrange(i + 1, after as int - 1)),
                        ));
                        i = after;
                    },
                    None => {
                        return Err(CompileError::UnclosedGroup);
                    },
                }
            }
        } else if ch == '^' {
            if i + 1 >= n {
                return Err(CompileError::MisplacedStartAnchor);
            }
            if char_classes.len() > 0 {
                return Err(CompileError::MisplacedStartAnchor);
            }
            let payload = pattern.get_char(i + 1);
            char_classes.push(CharacterClass::StartAnchor(payload));
            assert(views(char_classes@) =~= acc0.push(NodeV::StartAnchor(payload)));
            i += 2;
        } else if ch == '$' {
            if i + 1 < n {
                return Err(CompileError::MisplacedEndAnchor);
            }
            if char_classes.len() > 0 {
                let last = char_classes.pop().unwrap();
                let ghost popped = acc0.take(acc0.len() - 1);
                char_classes.push(CharacterClass::EndAnchor(Box::new(last)));
                assert(views(char_classes@) =~= popped.push(
                    NodeV::EndAnchor(Box::new(acc0.last())),
                ));
            }
            i += 1;
        } else if ch == '+' {
            if char_classes.len() == 0 {
                return Err(CompileError::DanglingQuantifier);
            }
            let last = char_classes.pop().unwrap();
            let ghost popped = acc0.take(acc0.len() - 1);
            char_classes.push(CharacterClass::OneOrMore(Box::new(last)));
            assert(views(char_classes@) =~= popped.push(NodeV::OneOrMore(Box::new(acc0.last()))));
            i += 1;
        } else {
            char_classes.push(CharacterClass::Literal(ch));
            assert(views(char_classes@) =~= acc0.push(NodeV::Literal(ch)));
            i += 1;
        }
    }
    Ok(char_classes)
}

} // verus!
