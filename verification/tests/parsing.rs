use regexzero::parser::fold_or;
use regexzero::parser::parse;
use regexzero::parser::parse_escape;
use regexzero::parser::parse_plus_star_question;
use regexzero::parser::ParseError;
use regexzero::parser::AST;
use regexzero::parser::PSQ;

#[test]
fn parse_error_positions_are_exact() {
    assert_eq!(parse("("), Err(ParseError::NoRightParen));
    assert_eq!(parse(")abc"), Err(ParseError::InvalidRightParen(0)));
    assert_eq!(parse("abc)"), Err(ParseError::InvalidRightParen(3)));
    assert_eq!(parse("|abc"), Err(ParseError::NoPrev(0)));
    assert_eq!(parse("*abc"), Err(ParseError::NoPrev(0)));
    assert_eq!(parse(""), Err(ParseError::Empty));
    assert_eq!(parse("a\\qb"), Err(ParseError::InvalidEscape(2, 'q')));
}

#[test]
fn empty_alternative_and_empty_group_fail() {
    assert_eq!(parse("a||b"), Err(ParseError::NoPrev(2)));
    assert_eq!(parse("()"), Err(ParseError::Empty));
    assert_eq!(parse("(|a)"), Err(ParseError::NoPrev(1)));
}

#[test]
fn literal_sequence_parses_to_one_concatenation() {
    assert_eq!(
        parse("ab"),
        Ok(AST::Cat(vec![AST::Char('a'), AST::Char('b')]))
    );
}

#[test]
fn alternation_parses_right_associatively() {
    assert_eq!(
        parse("a|b|c"),
        Ok(AST::Or(
            Box::new(AST::Cat(vec![AST::Char('a')])),
            Box::new(AST::Or(
                Box::new(AST::Cat(vec![AST::Char('b')])),
                Box::new(AST::Cat(vec![AST::Char('c')])),
            )),
        ))
    );
}

#[test]
fn postfix_operators_wrap_the_last_node() {
    assert_eq!(
        parse("ab*"),
        Ok(AST::Cat(vec![
            AST::Char('a'),
            AST::Star(Box::new(AST::Char('b'))),
        ]))
    );
    assert_eq!(
        parse("a+"),
        Ok(AST::Cat(vec![AST::Plus(Box::new(AST::Char('a')))]))
    );
    assert_eq!(
        parse("a?"),
        Ok(AST::Cat(vec![AST::Question(Box::new(AST::Char('a')))]))
    );
}

#[test]
fn groups_nest_and_collapse() {
    assert_eq!(
        parse("(ab)*"),
        Ok(AST::Cat(vec![AST::Star(Box::new(AST::Cat(vec![
            AST::Char('a'),
            AST::Char('b'),
        ])))]))
    );
}

#[test]
fn escapes_parse_to_literal_characters() {
    assert_eq!(parse("\\+"), Ok(AST::Cat(vec![AST::Char('+')])));
    assert_eq!(parse("\\\\"), Ok(AST::Cat(vec![AST::Char('\\')])));
}

#[test]
fn trailing_alternation_bar_is_dropped() {
    assert_eq!(parse("a|"), Ok(AST::Cat(vec![AST::Char('a')])));
}

#[test]
fn escape_helper_accepts_only_metacharacters() {
    assert_eq!(parse_escape(5, '('), Ok(AST::Char('(')));
    assert_eq!(parse_escape(5, '?'), Ok(AST::Char('?')));
    assert_eq!(parse_escape(7, 'x'), Err(ParseError::InvalidEscape(7, 'x')));
}

#[test]
fn postfix_helper_needs_a_previous_node() {
    let mut seq: Vec<AST> = Vec::new();
    assert_eq!(
        parse_plus_star_question(&mut seq, PSQ::Plus, 4),
        Err(ParseError::NoPrev(4))
    );
    let mut seq = vec![AST::Char('a')];
    assert_eq!(parse_plus_star_question(&mut seq, PSQ::Star, 1), Ok(()));
    assert_eq!(seq, vec![AST::Star(Box::new(AST::Char('a')))]);
}

#[test]
fn fold_or_folds_right_associatively() {
    assert_eq!(fold_or(Vec::new()), None);
    assert_eq!(fold_or(vec![AST::Char('a')]), Some(AST::Char('a')));
    assert_eq!(
        fold_or(vec![AST::Char('a'), AST::Char('b'), AST::Char('c')]),
        Some(AST::Or(
            Box::new(AST::Char('a')),
            Box::new(AST::Or(
                Box::new(AST::Char('b')),
                Box::new(AST::Char('c')),
            )),
        ))
    );
}
