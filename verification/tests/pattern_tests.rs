use pattern::{match_pattern, parse_pattern, Character, ParseError};

#[test]
fn not_test() {
    let pattern = parse_pattern("1boat[0-9]").unwrap();
    assert!(match_pattern(&pattern, "1boat3"));
    assert!(!match_pattern(&pattern, "1boatz"));
    assert!(!match_pattern(&pattern, "1b"));
}

#[test]
fn empty_pattern_matches_every_candidate() {
    let pattern = parse_pattern("").unwrap();
    assert_eq!(pattern, vec![]);
    assert!(match_pattern(&pattern, ""));
    assert!(match_pattern(&pattern, "anything"));
}

#[test]
fn literals_compile_in_order() {
    let pattern = parse_pattern("ab").unwrap();
    assert_eq!(pattern, vec![Character::Equal('a'), Character::Equal('b')]);
}

#[test]
fn unterminated_class_errors() {
    assert_eq!(parse_pattern("["), Err(ParseError::UnterminatedClass));
    assert_eq!(parse_pattern("[a-"), Err(ParseError::UnterminatedClass));
    assert_eq!(parse_pattern("[a-b"), Err(ParseError::UnterminatedClass));
}

#[test]
fn dash_with_no_preceding_character_errors() {
    assert_eq!(parse_pattern("[-]"), Err(ParseError::DanglingRangeOperator));
}

#[test]
fn dash_outside_a_class_is_invalid() {
    assert_eq!(parse_pattern("-abc"), Err(ParseError::InvalidCharacter));
}

#[test]
fn punctuation_literal_is_invalid() {
    assert_eq!(parse_pattern("a#b"), Err(ParseError::InvalidCharacter));
}

#[test]
fn punctuation_inside_class_is_invalid() {
    assert_eq!(parse_pattern("[#]"), Err(ParseError::InvalidCharacter));
    assert_eq!(parse_pattern("[a-#]"), Err(ParseError::InvalidCharacter));
}

#[test]
fn range_across_alphabets_errors() {
    assert_eq!(parse_pattern("[a-5]"), Err(ParseError::InvalidRange));
    assert_eq!(parse_pattern("[a-Z]"), Err(ParseError::InvalidRange));
    assert_eq!(parse_pattern("[A-z]"), Err(ParseError::InvalidRange));
    assert_eq!(parse_pattern("[0-z]"), Err(ParseError::InvalidRange));
}

#[test]
fn round_trip_digit_class() {
    let pattern = parse_pattern("1boat[0-9]").unwrap();
    assert_eq!(pattern.len(), 6);
    assert!(match_pattern(&pattern, "1boat3"));
    assert!(!match_pattern(&pattern, "1boatz"));
    assert!(!match_pattern(&pattern, "1b"));
}

#[test]
fn range_expands_in_alphabet_order() {
    let pattern = parse_pattern("[a-c]").unwrap();
    assert_eq!(pattern, vec![Character::OneOf(vec!['a', 'b', 'c'])]);
    assert!(match_pattern(&pattern, "a"));
    assert!(match_pattern(&pattern, "b"));
    assert!(match_pattern(&pattern, "c"));
    assert!(!match_pattern(&pattern, "d"));
}

#[test]
fn descending_range_yields_empty_class() {
    let pattern = parse_pattern("[c-a]").unwrap();
    assert_eq!(pattern, vec![Character::OneOf(vec![])]);
    assert!(!match_pattern(&pattern, "a"));
    assert!(!match_pattern(&pattern, "c"));
    assert!(!match_pattern(&pattern, "x"));
    assert!(!match_pattern(&pattern, ""));
}

#[test]
fn compiling_twice_yields_equal_tokens() {
    let first = parse_pattern("1boat[0-9]").unwrap();
    let second = parse_pattern("1boat[0-9]").unwrap();
    assert_eq!(first, second);
}

#[test]
fn every_position_must_satisfy_its_token() {
    let pattern = parse_pattern("x[ab]9").unwrap();
    assert!(match_pattern(&pattern, "xa9"));
    assert!(match_pattern(&pattern, "xb9"));
    assert!(!match_pattern(&pattern, "ya9"));
    assert!(!match_pattern(&pattern, "xc9"));
    assert!(!match_pattern(&pattern, "xa8"));
    assert!(!match_pattern(&pattern, "xa"));
}

#[test]
fn trailing_candidate_characters_are_ignored() {
    let pattern = parse_pattern("ab").unwrap();
    assert!(match_pattern(&pattern, "ab"));
    assert!(match_pattern(&pattern, "abc"));
    assert!(match_pattern(&pattern, "abcdef"));
    assert!(!match_pattern(&pattern, "a"));
}

#[test]
fn single_character_range_keeps_one_element() {
    let pattern = parse_pattern("[a-a]").unwrap();
    assert_eq!(pattern, vec![Character::OneOf(vec!['a'])]);
    assert!(match_pattern(&pattern, "a"));
    assert!(!match_pattern(&pattern, "b"));
}

#[test]
fn plain_class_lists_its_members() {
    let pattern = parse_pattern("[abc]").unwrap();
    assert_eq!(pattern, vec![Character::OneOf(vec!['a', 'b', 'c'])]);
}

#[test]
fn empty_class_compiles_and_never_matches() {
    let pattern = parse_pattern("[]").unwrap();
    assert_eq!(pattern, vec![Character::OneOf(vec![])]);
    assert!(!match_pattern(&pattern, "a"));
}

#[test]
fn class_mixes_members_and_ranges() {
    let pattern = parse_pattern("[xa-c]").unwrap();
    assert_eq!(pattern, vec![Character::OneOf(vec!['x', 'a', 'b', 'c'])]);
    let pattern = parse_pattern("[a-c0-2]").unwrap();
    assert_eq!(
        pattern,
        vec![Character::OneOf(vec!['a', 'b', 'c', '0', '1', '2'])]
    );
}

#[test]
fn uppercase_and_digit_ranges_expand() {
    let pattern = parse_pattern("[A-C]").unwrap();
    assert_eq!(pattern, vec![Character::OneOf(vec!['A', 'B', 'C'])]);
    assert!(match_pattern(&pattern, "B"));
    assert!(!match_pattern(&pattern, "b"));
    let pattern = parse_pattern("[0-9]").unwrap();
    assert_eq!(
        pattern,
        vec![Character::OneOf(vec![
            '0', '1', '2', '3', '4', '5', '6', '7', '8', '9'
        ])]
    );
}
