use linegrep::classes::{char_class_matches, CharacterClass};
use linegrep::parser::collect_until;
use linegrep::matcher::{handle_quantifier, match_nodes, match_pattern};

#[test]
fn test_predicate_literal() {
    assert!(char_class_matches('a', &CharacterClass::Literal('a')));
    assert!(!char_class_matches('b', &CharacterClass::Literal('a')));
}

#[test]
fn test_predicate_groups() {
    let group = CharacterClass::CharGroup("abc".to_string());
    assert!(char_class_matches('b', &group));
    assert!(!char_class_matches('z', &group));

    let negated = CharacterClass::NegativeCharGroup("abc".to_string());
    assert!(!char_class_matches('b', &negated));
    assert!(char_class_matches('z', &negated));
}

#[test]
fn test_predicate_delegates_through_wrappers() {
    let wrapped = CharacterClass::EndAnchor(Box::new(CharacterClass::Digit));
    assert!(char_class_matches('7', &wrapped));
    assert!(!char_class_matches('x', &wrapped));

    let repeated = CharacterClass::OneOrMore(Box::new(CharacterClass::Literal('o')));
    assert!(char_class_matches('o', &repeated));
    assert!(!char_class_matches('p', &repeated));
}

#[test]
fn test_handle_quantifier_consumes_greedily() {
    let one_or_more = CharacterClass::OneOrMore(Box::new(CharacterClass::Literal('a')));
    assert_eq!(handle_quantifier("aaab", 0, &one_or_more), 3);
    assert_eq!(handle_quantifier("aaab", 1, &one_or_more), 3);
    assert_eq!(handle_quantifier("aaab", 3, &one_or_more), 3);
    assert_eq!(handle_quantifier("aaaa", 0, &one_or_more), 4);
}

#[test]
fn test_handle_quantifier_leaves_plain_nodes_alone() {
    assert_eq!(handle_quantifier("aaab", 1, &CharacterClass::Literal('a')), 1);
    assert_eq!(handle_quantifier("aaab", 2, &CharacterClass::Digit), 2);
}

#[test]
fn test_match_pattern_searches_whole_input() {
    assert!(match_pattern("abc", &CharacterClass::Literal('b')));
    assert!(!match_pattern("abc", &CharacterClass::Literal('z')));
    assert!(match_pattern("a1", &CharacterClass::Digit));
    assert!(!match_pattern("ab", &CharacterClass::Digit));
    assert!(match_pattern("!a", &CharacterClass::Alphanumeric));
    assert!(!match_pattern("!?", &CharacterClass::Alphanumeric));
}

#[test]
fn test_match_pattern_group_membership() {
    assert!(match_pattern("zzb", &CharacterClass::CharGroup("abc".to_string())));
    assert!(!match_pattern("zzq", &CharacterClass::CharGroup("abc".to_string())));
    // A negated group asks that no character of the input lie in the group.
    assert!(!match_pattern("zzb", &CharacterClass::NegativeCharGroup("abc".to_string())));
    assert!(match_pattern("zzq", &CharacterClass::NegativeCharGroup("abc".to_string())));
}

#[test]
fn test_match_pattern_start_anchor_is_starts_with() {
    assert!(match_pattern("abc", &CharacterClass::StartAnchor('a')));
    assert!(!match_pattern("bac", &CharacterClass::StartAnchor('a')));
    assert!(!match_pattern("", &CharacterClass::StartAnchor('a')));
}

#[test]
fn test_match_nodes_tries_every_offset() {
    let nodes = vec![CharacterClass::Literal('o'), CharacterClass::Literal('g')];
    assert!(match_nodes("dog", &nodes));
    assert!(!match_nodes("odg", &nodes));
}

#[test]
fn test_match_nodes_empty_sequence_matches_nothing() {
    let nodes: Vec<CharacterClass> = vec![];
    assert!(!match_nodes("abc", &nodes));
    assert!(!match_nodes("", &nodes));
}

#[test]
fn test_match_nodes_start_anchor_precheck() {
    // The precheck pins the first character; the walk itself treats the
    // anchor node like a literal at any offset.
    let nodes = vec![CharacterClass::StartAnchor('a'), CharacterClass::Literal('b')];
    assert!(match_nodes("aab", &nodes));
    assert!(!match_nodes("xab", &nodes));
}

#[test]
fn test_collect_until_finds_first_close() {
    assert_eq!(collect_until("abc]def", 0, ']'), Some(("abc".to_string(), 4)));
    assert_eq!(collect_until("abc]d]ef", 1, ']'), Some(("bc".to_string(), 4)));
    assert_eq!(collect_until("abcdef", 0, ']'), None);
    assert_eq!(collect_until("]", 0, ']'), Some(("".to_string(), 1)));
}
