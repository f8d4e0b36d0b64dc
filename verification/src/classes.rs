use vstd::prelude::*;

verus! {

/// One matchable unit of a compiled pattern: the element type of the sequence
/// that the pattern compiler produces and the match evaluator walks.
///
/// `EndAnchor` and `OneOrMore` each own the node they wrap, so a compiled
/// pattern is a sequence of small trees.
#[derive(Debug, PartialEq, Eq)]
pub enum CharacterClass {
    /// Matches exactly this character.
    Literal(char),
    /// Matches any character that occurs in the group.
    CharGroup(String),
    /// Matches any character that does not occur in the group.
    NegativeCharGroup(String),
    /// Matches any ASCII digit.
    Digit,
    /// Matches any alphanumeric character.
    Alphanumeric,
    /// Asserts that the line begins with this character; only produced as the
    /// first node of a compiled pattern.
    StartAnchor(char),
    /// Wraps the node that must match the final character of the line; only
    /// produced as the last node of a compiled pattern.
    EndAnchor(Box<CharacterClass>),
    /// Requires one or more greedy repetitions of the wrapped node.
    OneOrMore(Box<CharacterClass>),
}

/// The mathematical shape of a compiled node: character groups as sequences of
/// characters. Contracts about compiled patterns are stated over this type.
pub enum NodeV {
    Literal(char),
    CharGroup(Seq<char>),
    NegativeCharGroup(Seq<char>),
    Digit,
    Alphanumeric,
    StartAnchor(char),
    EndAnchor(Box<NodeV>),
    OneOrMore(Box<NodeV>),
}

/// The abstraction of one compiled node.
pub open spec fn node_view(n: CharacterClass) -> NodeV
    decreases n,
{
    match n {
        CharacterClass::Literal(c) => NodeV::Literal(c),
        CharacterClass::CharGroup(g) => NodeV::CharGroup(g@),
        CharacterClass::NegativeCharGroup(g) => NodeV::NegativeCharGroup(g@),
        CharacterClass::Digit => NodeV::Digit,
        CharacterClass::Alphanumeric => NodeV::Alphanumeric,
        CharacterClass::StartAnchor(c) => NodeV::StartAnchor(c),
        CharacterClass::EndAnchor(inner) => NodeV::EndAnchor(Box::new(node_view(*inner))),
        CharacterClass::OneOrMore(inner) => NodeV::OneOrMore(Box::new(node_view(*inner))),
    }
}

impl View for CharacterClass {
    type V = NodeV;

    open spec fn view(&self) -> NodeV {
        node_view(*self)
    }
}

/// The abstraction of a whole compiled pattern.
pub open spec fn views(s: Seq<CharacterClass>) -> Seq<NodeV> {
    s.map_values(|n: CharacterClass| node_view(n))
}

/// Whether a character is an ASCII digit.
pub open spec fn is_digit_char(c: char) -> bool {
    48 <= c as u32 && c as u32 <= 57
}

/// What `char::is_alphanumeric` returns for a character.
pub uninterp spec fn is_alnum_char(c: char) -> bool;

/// Relies on `char::is_alphanumeric` of std: whether a character belongs to
/// the Unicode alphabetic or numeric classes depends on the character alone.
#[verifier::external_body]
fn exec_is_alphanumeric(c: char) -> (r: bool)
    ensures
        r == is_alnum_char(c),
{
    c.is_alphanumeric()
}

/// Whether one character satisfies one compiled node, read as a test of a
/// single character: anchors and the quantifier delegate to the node they
/// wrap.
pub open spec fn char_satisfies(n: NodeV, c: char) -> bool
    decreases n,
{
    match n {
        NodeV::Literal(l) => c == l,
        NodeV::CharGroup(g) => g.contains(c),
        NodeV::NegativeCharGroup(g) => !g.contains(c),
        NodeV::Digit => is_digit_char(c),
        NodeV::Alphanumeric => is_alnum_char(c),
        NodeV::StartAnchor(a) => c == a,
        NodeV::EndAnchor(inner) => char_satisfies(*inner, c),
        NodeV::OneOrMore(inner) => char_satisfies(*inner, c),
    }
}

/// Whether a character occurs in a group's backing string.
pub(crate) fn group_contains(group: &String, c: char) -> (r: bool)
    ensures
        r == group@.contains(c),
{
    let s = group.as_str();
    let n = s.unicode_len();
    let mut i: usize = 0;
    while i < n
        invariant
            s@ == group@,
            n == s@.len(),
            i <= n,
            forall|j: int| 0 <= j < i ==> s@[j] != c,
        decreases n - i,
    {
        if s.get_char(i) == c {
            assert(group@[i as int] == c);
            return true;
        }
        i += 1;
    }
    false
}

/// Character-Class Predicate: the single-character test at the bottom of the
/// evaluator. Anchors and the quantifier delegate to their wrapped node.
pub fn char_class_matches(c: char, class: &CharacterClass) -> (r: bool)
    ensures
        r == char_satisfies(class@, c),
    decreases class,
{
    match class {
        CharacterClass::Literal(l) => c == *l,
        CharacterClass::CharGroup(g) => group_contains(g, c),
        CharacterClass::NegativeCharGroup(g) => !group_contains(g, c),
        CharacterClass::Digit => {
            let u = c as u32;
            48 <= u && u <= 57
        },
        CharacterClass::Alphanumeric => exec_is_alphanumeric(c),
        CharacterClass::StartAnchor(a) => c == *a,
        CharacterClass::EndAnchor(inner) => char_class_matches(c, inner),
        CharacterClass::OneOrMore(inner) => char_class_matches(c, inner),
    }
}

} // verus!
