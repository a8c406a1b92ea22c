use regexzero::codegen::get_code;
use regexzero::evaluator::eval;
use regexzero::evaluator::EvalError;
use regexzero::parser::parse;
use regexzero::Instruction;

fn compile(pattern: &str) -> Vec<Instruction> {
    get_code(&parse(pattern).unwrap()).unwrap()
}

#[test]
fn literals_compile_to_char_matches() {
    assert_eq!(
        compile("abc"),
        vec![
            Instruction::Char('a'),
            Instruction::Char('b'),
            Instruction::Char('c'),
            Instruction::Match,
        ]
    );
}

#[test]
fn alternation_splits_then_joins() {
    assert_eq!(
        compile("a|b"),
        vec![
            Instruction::Split(1, 3),
            Instruction::Char('a'),
            Instruction::Jump(4),
            Instruction::Char('b'),
            Instruction::Match,
        ]
    );
}

#[test]
fn star_prefers_the_loop_body() {
    assert_eq!(
        compile("a*"),
        vec![
            Instruction::Split(1, 3),
            Instruction::Char('a'),
            Instruction::Jump(0),
            Instruction::Match,
        ]
    );
}

#[test]
fn plus_prefers_repeating() {
    assert_eq!(
        compile("a+"),
        vec![
            Instruction::Char('a'),
            Instruction::Split(0, 2),
            Instruction::Match,
        ]
    );
}

#[test]
fn question_prefers_presence() {
    assert_eq!(
        compile("a?"),
        vec![
            Instruction::Split(1, 2),
            Instruction::Char('a'),
            Instruction::Match,
        ]
    );
}

#[test]
fn compiled_programs_are_well_formed() {
    for pattern in ["a", "a*", "a+", "a?", "a|b|c", "abc|(de|cd)+", "((a|b)*c)+d?"] {
        let code = compile(pattern);
        let len = code.len();
        assert!(len >= 1);
        assert_eq!(code[len - 1], Instruction::Match);
        for (i, inst) in code.iter().enumerate() {
            match *inst {
                Instruction::Match => assert_eq!(i, len - 1),
                Instruction::Jump(t) => assert!(t < len),
                Instruction::Split(a, b) => {
                    assert!(a < len);
                    assert!(b < len);
                },
                Instruction::Char(_) => {},
            }
        }
    }
}

#[test]
fn evaluator_runs_a_compiled_program() {
    let code = compile("ab");
    let subject: Vec<char> = vec!['a', 'b'];
    assert_eq!(eval(&code, &subject, true), Ok(true));
    let subject: Vec<char> = vec!['a', 'c'];
    assert_eq!(eval(&code, &subject, true), Ok(false));
}

#[test]
fn evaluator_rejects_an_out_of_range_program_counter() {
    let empty: Vec<char> = Vec::new();
    assert_eq!(eval(&[], &empty, true), Err(EvalError::InvalidPC));
    assert_eq!(
        eval(&[Instruction::Jump(5), Instruction::Match], &empty, true),
        Err(EvalError::InvalidPC)
    );
}

#[test]
fn evaluation_can_start_mid_subject() {
    let code = vec![Instruction::Char('a'), Instruction::Match];
    let subject: Vec<char> = vec!['x', 'a'];
    assert_eq!(regexzero::evaluator::eval_depth(&code, &subject, 0, 1), Ok(true));
    assert_eq!(regexzero::evaluator::eval_depth(&code, &subject, 0, 0), Ok(false));
    assert_eq!(regexzero::evaluator::eval_depth(&code, &subject, 1, 0), Ok(true));
}
