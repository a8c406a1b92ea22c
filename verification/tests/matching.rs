use regexzero::do_matching;
use regexzero::parser::ParseError;
use regexzero::MatchError;

#[test]
fn star_is_greedy_and_matches() {
    assert_eq!(do_matching("a*", "aaa", true), Ok(true));
}

#[test]
fn plus_requires_presence() {
    assert_eq!(do_matching("a+", "", true), Ok(false));
    assert_eq!(do_matching("a*", "", true), Ok(true));
}

#[test]
fn alternation_prefers_left_branch() {
    assert_eq!(do_matching("a|ab", "ab", true), Ok(true));
}

#[test]
fn end_to_end_group_repetition() {
    assert_eq!(do_matching("abc|(de|cd)+", "decddede", true), Ok(true));
    assert_eq!(do_matching("abc|(de|cd)+", "xxxx", true), Ok(false));
}

#[test]
fn match_is_deterministic() {
    let first = do_matching("abc|(de|cd)+", "decddede", true);
    let second = do_matching("abc|(de|cd)+", "decddede", true);
    assert_eq!(first, second);
    let first = do_matching("a\\qb", "x", true);
    let second = do_matching("a\\qb", "x", true);
    assert_eq!(first, second);
}

#[test]
fn breadth_flag_behaves_like_depth() {
    assert_eq!(do_matching("a|ab", "ab", false), Ok(true));
    assert_eq!(do_matching("a+", "", false), Ok(false));
    assert_eq!(do_matching("abc|(de|cd)+", "xxxx", false), Ok(false));
}

#[test]
fn match_accepts_a_proper_prefix() {
    assert_eq!(do_matching("ab", "abcdef", true), Ok(true));
    assert_eq!(do_matching("abc", "ab", true), Ok(false));
}

#[test]
fn escaped_metacharacters_are_literal() {
    assert_eq!(do_matching("a\\*", "a*", true), Ok(true));
    assert_eq!(do_matching("a\\*", "ab", true), Ok(false));
    assert_eq!(do_matching("\\(\\)", "()", true), Ok(true));
}

#[test]
fn question_is_optional() {
    assert_eq!(do_matching("ab?c", "abc", true), Ok(true));
    assert_eq!(do_matching("ab?c", "ac", true), Ok(true));
    assert_eq!(do_matching("ab?c", "abbc", true), Ok(false));
}

#[test]
fn nested_repetition_terminates_without_match() {
    assert_eq!(do_matching("(a+)+c", "aaaaaaaaaaaab", true), Ok(false));
}

#[test]
fn empty_body_repetition_terminates() {
    assert_eq!(do_matching("(a*)*", "b", true), Ok(true));
    assert_eq!(do_matching("(a*)*b", "b", true), Ok(true));
}

#[test]
fn parse_failures_surface_through_the_entry_point() {
    assert_eq!(
        do_matching("(", "x", true),
        Err(MatchError::Parse(ParseError::NoRightParen))
    );
    assert_eq!(
        do_matching("", "x", true),
        Err(MatchError::Parse(ParseError::Empty))
    );
    assert_eq!(
        do_matching("a\\qb", "x", true),
        Err(MatchError::Parse(ParseError::InvalidEscape(2, 'q')))
    );
}
