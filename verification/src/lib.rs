//! A small regular-expression engine: a pattern is parsed into an abstract
//! syntax tree, compiled into a short instruction sequence for a virtual
//! machine, and run against a subject string by depth-first backtracking.
//!
//! The engine supports literal characters, escaped metacharacters,
//! concatenation, alternation (`|`), grouping (`(`...`)`), and the greedy
//! postfix operators `+`, `*` and `?`.  A match succeeds when some prefix of
//! the subject satisfies the whole pattern.
use vstd::prelude::*;

pub mod ast;
pub mod codegen;
pub mod evaluator;
pub mod parser;
pub mod render;

use codegen::CodeGenError;
use evaluator::EvalError;
use parser::ParseError;

verus! {

/// One virtual-machine instruction.  An address is an index into the
/// instruction sequence the instruction itself belongs to.
#[derive(Clone, Copy, Debug, PartialEq, Eq, Structural)]
pub enum Instruction {
    /// Succeed on this branch only if the subject holds this exact
    /// code point at the current position; consume it.
    Char(char),
    /// The whole pattern is satisfied: this branch succeeds.
    Match,
    /// Continue at the given address without consuming input.
    Jump(usize),
    /// Try the first address, and only if that branch fails, the second.
    Split(usize, usize),
}

/// A well-formed compiled program: at least one instruction, `Match` stands
/// exactly once and at the final address, and every `Jump`/`Split` target is
/// a valid index of the same sequence.
pub open spec fn prog_wf(code: Seq<Instruction>) -> bool {
    &&& code.len() >= 1
    &&& code.last() == Instruction::Match
    &&& forall|i: int| 0 <= i < code.len() - 1 ==> !(#[trigger] code[i] is Match)
    &&& forall|i: int| 0 <= i < code.len() ==> match #[trigger] code[i] {
            Instruction::Jump(t) => t < code.len(),
            Instruction::Split(a, b) => a < code.len() && b < code.len(),
            _ => true,
        }
}

/// The error of the whole pipeline.  Each stage's failure is kept as it was
/// raised, so a caller can still inspect the original cause.
#[derive(Clone, Copy, Debug, PartialEq, Eq, Structural)]
pub enum MatchError {
    Parse(ParseError),
    CodeGen(CodeGenError),
    Eval(EvalError),
}

/// What `do_matching` returns, as a function of the two input strings alone:
/// the parse error of the pattern, if any; otherwise the overflow error when
/// the compiled program would not be addressable; otherwise whether the
/// program accepts some prefix of the subject.
pub open spec fn matching_result(expr: Seq<char>, line: Seq<char>) -> Result<bool, MatchError> {
    match parser::spec_parse(expr) {
        Err(pe) => Err(MatchError::Parse(pe)),
        Ok(re) => if codegen::code_len(re) + 1 > usize::MAX {
            Err(MatchError::CodeGen(CodeGenError::PCOverFlow))
        } else {
            Ok(evaluator::accepts(
                codegen::spec_prog(re, 0) + seq![Instruction::Match],
                line,
                0,
                0,
            ))
        },
    }
}

/// Two calls with identical pattern and subject return identical results:
/// every result of `do_matching` equals `matching_result` of its inputs,
/// which is a function of those inputs alone.
pub proof fn lemma_matching_deterministic(
    expr: Seq<char>,
    line: Seq<char>,
    r1: Result<bool, MatchError>,
    r2: Result<bool, MatchError>,
)
    requires
        r1 == matching_result(expr, line),
        r2 == matching_result(expr, line),
    ensures
        r1 == r2,
{
}

/// Collects the code points of a string into a vector.
fn str_to_chars(s: &str) -> (v: Vec<char>)
    ensures
        v@ == s@,
{
    let len = s.unicode_len();
    let mut v: Vec<char> = Vec::new();
    let mut i: usize = 0;
    while i < len
        invariant
            i <= s@.len(),
            len == s@.len(),
            v@ == s@.take(i as int),
        decreases len - i,
    {
        let c = s.get_char(i);
        v.push(c);
        i += 1;
        proof {
            assert(v@ =~= s@.take(i as int));
        }
    }
    proof {
        assert(s@.take(len as int) =~= s@);
    }
    v
}

/// Matches a pattern against a subject string.
///
/// Returns `Ok(true)` when the pattern can be satisfied by some prefix of
/// the subject, `Ok(false)` when it cannot, and `Err` when the pattern does
/// not parse or an internal limit is exceeded.
///
/// `is_depth` selects depth-first search when true; the breadth-first
/// strategy is not realized, so both values behave identically.
pub fn do_matching(expr: &str, line: &str, is_depth: bool) -> (r: Result<bool, MatchError>)
    ensures
        r == matching_result(expr@, line@),
{
    let ast = match parser::parse(expr) {
        Ok(a) => a,
        Err(e) => {
            return Err(MatchError::Parse(e));
        },
    };
    let code = match codegen::get_code(&ast) {
        Ok(c) => c,
        Err(e) => {
            return Err(MatchError::CodeGen(e));
        },
    };
    let chars = str_to_chars(line);
    proof {
        codegen::lemma_compiled_well_formed(ast@);
    }
    match evaluator::eval(code.as_slice(), chars.as_slice(), is_depth) {
        Ok(b) => Ok(b),
        Err(e) => Err(MatchError::Eval(e)),
    }
}

} // verus!
