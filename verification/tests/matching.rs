use linegrep::matcher::pattern_matches;

#[test]
fn test_match_exists_end_to_end_match() {
    let input = "John Doe has more than 700 years of history";
    let pattern = "\\d\\d\\d years";

    assert!(pattern_matches(input, pattern).unwrap());
}

#[test]
fn test_match_exists_alphanumeric_combination_partial_match() {
    let input = "John Doe has more than 700 years of history";
    let pattern = "\\w\\d yea";

    assert!(pattern_matches(input, pattern).unwrap());
}

#[test]
fn test_match_exists_no_match() {
    let input = "John Doe has more than 700 years of history";
    let pattern = "\\d\\d lorem";

    assert!(!pattern_matches(input, pattern).unwrap());
}

#[test]
fn test_match_exists_digit_alphanumeric_literal_combination() {
    let input = "John Doe has more than 700 years of history";
    let pattern = "\\d \\w\\w\\w\\ws";

    assert!(pattern_matches(input, pattern).unwrap());
}

#[test]
fn test_excaped_back_slash() {
    let input = "sally has 12 apples";
    let pattern = r"\d\\d\\d apples";

    assert!(!pattern_matches(input, pattern).unwrap());
}

#[test]
fn test_start_of_line_anchor_match() {
    let input = "John Doe has more than 700 years of history";
    let pattern = r"^J\w\w\w";

    assert!(pattern_matches(input, pattern).unwrap());
}

#[test]
fn test_start_of_line_anchor_mismatch() {
    let input = "slog";
    let pattern = r"^log";

    assert!(!pattern_matches(input, pattern).unwrap());
}

#[test]
fn test_end_of_string_anchor_literal_match() {
    let input = "John Doe has more than 700 years of history";
    let pattern = r"ry$";

    assert!(pattern_matches(input, pattern).unwrap());
}

#[test]
fn test_end_of_string_anchor_alphanumeric_match() {
    let input = "John Doe has more than 700 years of history";
    let pattern = r"\w$";

    assert!(pattern_matches(input, pattern).unwrap());
}

#[test]
fn test_end_of_string_anchor_digit_match() {
    let input = "John Doe has more than 700 years of history :3";
    let pattern = r"\d$";

    assert!(pattern_matches(input, pattern).unwrap());
}

#[test]
fn test_end_of_string_anchor_mismatch() {
    let input = "cat, dog and more dogs";
    let pattern = r"dog$";

    assert!(!pattern_matches(input, pattern).unwrap());
}

#[test]
fn test_one_or_more_literal_match() {
    let input = "Hellooooooooooo wo!";
    let pattern = r"\w\wo+ \w";

    assert!(pattern_matches(input, pattern).unwrap());
}

#[test]
fn test_quantifier_greedy_consumes_all() {
    assert!(pattern_matches("aaab", "a+b").unwrap());
}

#[test]
fn test_quantifier_no_backtracking() {
    // The greedy resolver consumes every 'a' and never gives one back, so the
    // trailing literal 'a' finds nothing left: a documented dialect limitation.
    assert!(!pattern_matches("aaa", "a+a").unwrap());
}

#[test]
fn test_quantifier_under_end_anchor() {
    assert!(pattern_matches("baaa", "a+$").unwrap());
    assert!(!pattern_matches("aaab", "a+$").unwrap());
}

#[test]
fn test_negative_group_rejects_group_only_line() {
    assert!(!pattern_matches("xyzzy", "[^xyz]").unwrap());
}

#[test]
fn test_negative_group_accepts_outside_character() {
    assert!(pattern_matches("xya", "[^xyz]").unwrap());
}

#[test]
fn test_positive_group() {
    assert!(pattern_matches("zzb", "[abc]").unwrap());
    assert!(!pattern_matches("zzq", "[abc]").unwrap());
}

#[test]
fn test_start_anchor_empty_line() {
    assert!(!pattern_matches("", "^a").unwrap());
}

#[test]
fn test_end_anchor_empty_line() {
    assert!(!pattern_matches("", "a$").unwrap());
}

#[test]
fn test_end_anchor_trailing_input() {
    assert!(!pattern_matches("dogs", "og$").unwrap());
    assert!(pattern_matches("dogs", "gs$").unwrap());
}

#[test]
fn test_digit_class_boundaries() {
    assert!(pattern_matches("0", r"\d").unwrap());
    assert!(pattern_matches("9", r"\d").unwrap());
    assert!(!pattern_matches("/", r"\d").unwrap());
    assert!(!pattern_matches(":", r"\d").unwrap());
}

#[test]
fn test_alphanumeric_class() {
    assert!(pattern_matches("é!", r"\w").unwrap());
    assert!(!pattern_matches("!?", r"\w").unwrap());
    // Underscore is not alphanumeric in this dialect.
    assert!(!pattern_matches("_", r"\w").unwrap());
}

#[test]
fn test_empty_pattern_matches_nothing() {
    assert_eq!(pattern_matches("abc", "").unwrap(), false);
    assert_eq!(pattern_matches("", "").unwrap(), false);
}

#[test]
fn test_lone_end_anchor_matches_nothing() {
    assert_eq!(pattern_matches("abc", "$").unwrap(), false);
}

#[test]
fn test_quantified_start_anchor_escapes_precheck() {
    // Wrapping the start anchor in a quantifier hides it from the precheck,
    // so the pattern can match away from the start of the line.
    assert!(pattern_matches("baa", "^a+").unwrap());
}
