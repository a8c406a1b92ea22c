use regexzero::codegen::CodeGenError;
use regexzero::evaluator::EvalError;
use regexzero::parser::ParseError;
use regexzero::Instruction;

#[test]
fn instructions_render_one_line_each() {
    assert_eq!(Instruction::Char('x').render(), "char x");
    assert_eq!(Instruction::Match.render(), "match");
    assert_eq!(Instruction::Jump(7).render(), "jump 0007");
    assert_eq!(Instruction::Split(12, 3456).render(), "split 0012, 3456");
}

#[test]
fn addresses_pad_to_four_places_but_never_truncate() {
    assert_eq!(Instruction::Jump(0).render(), "jump 0000");
    assert_eq!(Instruction::Jump(999).render(), "jump 0999");
    assert_eq!(Instruction::Jump(1000).render(), "jump 1000");
    assert_eq!(Instruction::Jump(12345).render(), "jump 12345");
}

#[test]
fn parse_errors_describe_their_position() {
    assert_eq!(
        ParseError::InvalidEscape(2, 'q').message(),
        "ParseError: invalid escape: pos = 2, char = 'q'"
    );
    assert_eq!(
        ParseError::InvalidRightParen(0).message(),
        "ParseError: invalid right parenthesis: pos = 0"
    );
    assert_eq!(
        ParseError::NoPrev(42).message(),
        "ParseError: no previous expression: pos = 42"
    );
    assert_eq!(ParseError::NoRightParen.message(), "ParseError: no right parenthesis");
    assert_eq!(ParseError::Empty.message(), "ParseError: empty expression");
}

#[test]
fn run_time_errors_keep_their_historic_label() {
    assert_eq!(EvalError::InvalidPC.message(), "CodeGenError: InvalidPC");
    assert_eq!(EvalError::PCOverFlow.message(), "CodeGenError: PCOverFlow");
    assert_eq!(EvalError::SPOverFlow.message(), "CodeGenError: SPOverFlow");
    assert_eq!(CodeGenError::PCOverFlow.message(), "CodeGenError: PCOverFlow");
}
