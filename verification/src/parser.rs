//! Parsing of pattern text into an abstract syntax tree.
//!
//! The parser makes a single left-to-right scan over the pattern's code
//! points.  It keeps a current concatenation buffer (`seq`), a current
//! alternation buffer (`seq_or`), and a stack of saved `(seq, seq_or)`
//! contexts, one pushed per open group; a two-state scan mode distinguishes
//! plain characters from an escape sequence.
//!
//! The whole scan is mirrored, step for step, by the specification state
//! machine `p_step` / `run_steps`, and `parse` is proved to return exactly
//! what `spec_parse` denotes.
use vstd::prelude::*;

pub use crate::ast::ast_view;
pub use crate::ast::asts_view;
pub use crate::ast::Re;
pub use crate::ast::AST;

verus! {

broadcast use {crate::ast::lemma_asts_view_len, crate::ast::lemma_asts_view_index};

/// A parse failure.  Positions are code-point offsets into the pattern.
#[derive(Clone, Copy, Debug, PartialEq, Eq, Structural)]
pub enum ParseError {
    /// The character after a backslash is not an escapable metacharacter.
    InvalidEscape(usize, char),
    /// A closing parenthesis without a matching open one.
    InvalidRightParen(usize),
    /// A postfix operator or alternation bar with no expression before it.
    NoPrev(usize),
    /// An open parenthesis was never closed.
    NoRightParen,
    /// The pattern denotes no expression at all.
    Empty,
}

/// The characters a backslash may escape.
pub open spec fn escape_ok(c: char) -> bool {
    c == '\\' || c == '(' || c == ')' || c == '|' || c == '+' || c == '*' || c == '?'
}

/// Which postfix operator `parse_plus_star_question` applies.
#[derive(Clone, Copy)]
pub enum PSQ {
    Plus,
    Star,
    Question,
}

pub open spec fn wrap_psq(t: PSQ, r: Re) -> Re {
    match t {
        PSQ::Plus => Re::Plus(Box::new(r)),
        PSQ::Star => Re::Star(Box::new(r)),
        PSQ::Question => Re::Question(Box::new(r)),
    }
}

/// Right-associative fold of one or more alternatives into nested `Or`
/// nodes; a single alternative stands unwrapped.
pub open spec fn fold_or_ne(s: Seq<Re>) -> Re
    decreases s.len(),
{
    if s.len() <= 1 {
        s[0]
    } else {
        Re::Or(Box::new(s[0]), Box::new(fold_or_ne(s.skip(1))))
    }
}

/// The parser's state between two scan steps.
#[verifier::ext_equal]
pub struct PState {
    /// The concatenation gathered since the last `(`, `|` or the start.
    pub seq: Seq<Re>,
    /// The alternatives gathered since the last `(` or the start.
    pub seq_or: Seq<Re>,
    /// One saved `(seq, seq_or)` context per open group.
    pub stack: Seq<(Seq<Re>, Seq<Re>)>,
    /// Whether the scan stands right after a backslash.
    pub escaped: bool,
}

pub open spec fn p_init() -> PState {
    PState { seq: Seq::empty(), seq_or: Seq::empty(), stack: Seq::empty(), escaped: false }
}

/// The pending alternatives with the current concatenation folded in,
/// as done at a `)` and at the end of the pattern.
pub open spec fn close_alts(st: PState) -> Seq<Re> {
    if st.seq.len() > 0 {
        st.seq_or.push(Re::Cat(st.seq))
    } else {
        st.seq_or
    }
}

/// One scan step: how the parser state changes on reading code point `c`
/// at offset `pos`, or which error the scan stops with.
pub open spec fn p_step(st: PState, c: char, pos: int) -> Result<PState, ParseError> {
    if st.escaped {
        if escape_ok(c) {
            Ok(PState {
                seq: st.seq.push(Re::Char(c)),
                seq_or: st.seq_or,
                stack: st.stack,
                escaped: false,
            })
        } else {
            Err(ParseError::InvalidEscape(pos as usize, c))
        }
    } else if c == '+' || c == '*' || c == '?' {
        if st.seq.len() == 0 {
            Err(ParseError::NoPrev(pos as usize))
        } else {
            let t = if c == '+' {
                PSQ::Plus
            } else if c == '*' {
                PSQ::Star
            } else {
                PSQ::Question
            };
            Ok(PState {
                seq: st.seq.drop_last().push(wrap_psq(t, st.seq.last())),
                seq_or: st.seq_or,
                stack: st.stack,
                escaped: false,
            })
        }
    } else if c == '(' {
        Ok(PState {
            seq: Seq::empty(),
            seq_or: Seq::empty(),
            stack: st.stack.push((st.seq, st.seq_or)),
            escaped: false,
        })
    } else if c == ')' {
        if st.stack.len() == 0 {
            Err(ParseError::InvalidRightParen(pos as usize))
        } else {
            let alts = close_alts(st);
            Ok(PState {
                seq: if alts.len() > 0 {
                    st.stack.last().0.push(fold_or_ne(alts))
                } else {
                    st.stack.last().0
                },
                seq_or: st.stack.last().1,
                stack: st.stack.drop_last(),
                escaped: false,
            })
        }
    } else if c == '|' {
        if st.seq.len() == 0 {
            Err(ParseError::NoPrev(pos as usize))
        } else {
            Ok(PState {
                seq: Seq::empty(),
                seq_or: st.seq_or.push(Re::Cat(st.seq)),
                stack: st.stack,
                escaped: false,
            })
        }
    } else if c == '\\' {
        Ok(PState { seq: st.seq, seq_or: st.seq_or, stack: st.stack, escaped: true })
    } else {
        Ok(PState {
            seq: st.seq.push(Re::Char(c)),
            seq_or: st.seq_or,
            stack: st.stack,
            escaped: false,
        })
    }
}

/// The parser state after the first `n` code points of `s`, or the error
/// the scan stopped with.
pub open spec fn run_steps(s: Seq<char>, n: nat) -> Result<PState, ParseError>
    decreases n,
{
    if n == 0 {
        Ok(p_init())
    } else {
        match run_steps(s, (n - 1) as nat) {
            Err(e) => Err(e),
            Ok(st) => p_step(st, s[n - 1], n - 1),
        }
    }
}

/// What parsing a pattern denotes: the expression it stands for, or the
/// exact error.
pub open spec fn spec_parse(s: Seq<char>) -> Result<Re, ParseError> {
    match run_steps(s, s.len()) {
        Err(e) => Err(e),
        Ok(st) => if st.stack.len() > 0 {
            Err(ParseError::NoRightParen)
        } else {
            let alts = close_alts(st);
            if alts.len() > 0 {
                Ok(fold_or_ne(alts))
            } else {
                Err(ParseError::Empty)
            }
        },
    }
}

/// The views of the live parser buffers, gathered as one abstract state.
spec fn cur_view(
    seq: Seq<AST>,
    seq_or: Seq<AST>,
    stack: Seq<(Vec<AST>, Vec<AST>)>,
    escaped: bool,
) -> PState {
    PState {
        seq: asts_view(seq),
        seq_or: asts_view(seq_or),
        stack: stack_view(stack),
        escaped: escaped,
    }
}

/// The view of the saved contexts: each `(seq, seq_or)` pair of node
/// vectors as its pair of `Re` sequences.
spec fn stack_view(s: Seq<(Vec<AST>, Vec<AST>)>) -> Seq<(Seq<Re>, Seq<Re>)> {
    Seq::new(s.len(), |i: int| (asts_view(s[i].0@), asts_view(s[i].1@)))
}

proof fn lemma_run_steps_err_stable(s: Seq<char>, n: nat, m: nat)
    requires
        n <= m,
        run_steps(s, n) is Err,
    ensures
        run_steps(s, m) == run_steps(s, n),
    decreases m,
{
    if m > n {
        lemma_run_steps_err_stable(s, n, (m - 1) as nat);
    }
}

proof fn step_errs(s: Seq<char>, i: nat, st: PState, e: ParseError)
    requires
        i < s.len(),
        run_steps(s, i) == Ok::<PState, ParseError>(st),
        p_step(st, s[i as int], i as int) == Err::<PState, ParseError>(e),
    ensures
        spec_parse(s) == Err::<Re, ParseError>(e),
{
    assert(run_steps(s, (i + 1) as nat) == Err::<PState, ParseError>(e));
    lemma_run_steps_err_stable(s, (i + 1) as nat, s.len());
}

/// Turns an escaped character into its literal node; exactly the
/// metacharacters of the grammar may stand after a backslash.
pub fn parse_escape(pos: usize, c: char) -> (r: Result<AST, ParseError>)
    ensures
        match r {
            Ok(a) => escape_ok(c) && a@ == Re::Char(c),
            Err(e) => !escape_ok(c) && e == ParseError::InvalidEscape(pos, c),
        },
{
    match c {
        '\\' | '(' | ')' | '|' | '+' | '*' | '?' => Ok(AST::Char(c)),
        _ => Err(ParseError::InvalidEscape(pos, c)),
    }
}

/// Wraps the most recent node of the concatenation in a `+`, `*` or `?`
/// node; fails when there is no node to wrap.
pub fn parse_plus_star_question(seq: &mut Vec<AST>, ast_type: PSQ, pos: usize) -> (r: Result<
    (),
    ParseError,
>)
    ensures
        match r {
            Ok(_) => old(seq)@.len() > 0 && asts_view(final(seq)@) == asts_view(old(seq)@)
                .drop_last()
                .push(wrap_psq(ast_type, ast_view(old(seq)@.last()))),
            Err(e) => old(seq)@.len() == 0 && e == ParseError::NoPrev(pos) && final(seq)@ == old(
                seq,
            )@,
        },
{
    match seq.pop() {
        Some(prev) => {
            let ast = match ast_type {
                PSQ::Plus => AST::Plus(Box::new(prev)),
                PSQ::Star => AST::Star(Box::new(prev)),
                PSQ::Question => AST::Question(Box::new(prev)),
            };
            seq.push(ast);
            proof {
                assert(asts_view(seq@) =~= asts_view(old(seq)@).drop_last().push(
                    wrap_psq(ast_type, ast_view(old(seq)@.last())),
                ));
            }
            Ok(())
        },
        None => Err(ParseError::NoPrev(pos)),
    }
}

/// Folds the gathered alternatives right-associatively into nested `Or`
/// nodes; a single alternative is returned unwrapped, and an empty list
/// yields nothing.
pub fn fold_or(seq_or: Vec<AST>) -> (r: Option<AST>)
    ensures
        match r {
            Some(a) => seq_or@.len() > 0 && a@ == fold_or_ne(asts_view(seq_or@)),
            None => seq_or@.len() == 0,
        },
{
    let ghost orig: Seq<Re> = asts_view(seq_or@);
    let mut v = seq_or;
    match v.pop() {
        None => None,
        Some(last) => {
            let mut ast = last;
            proof {
                assert(asts_view(v@) =~= orig.take(v@.len() as int));
                assert(orig.skip(v@.len() as int) =~= seq![ast_view(ast)]);
            }
            while v.len() > 0
                invariant
                    v@.len() < orig.len(),
                    asts_view(v@) == orig.take(v@.len() as int),
                    ast_view(ast) == fold_or_ne(orig.skip(v@.len() as int)),
                decreases v@.len(),
            {
                let ghost k = v@.len() as int;
                let s = v.pop().unwrap();
                ast = AST::Or(Box::new(s), Box::new(ast));
                proof {
                    assert(ast_view(s) == orig.take(k)[k - 1]);
                    assert(asts_view(v@) =~= orig.take(k - 1));
                    assert(orig.skip(k - 1).len() >= 2);
                    assert(orig.skip(k - 1)[0] == orig[k - 1]);
                    assert(orig.skip(k - 1).skip(1) =~= orig.skip(k));
                    assert(ast_view(ast) == fold_or_ne(orig.skip(k - 1)));
                }
            }
            proof {
                assert(orig.skip(0) =~= orig);
            }
            Some(ast)
        },
    }
}

/// Parses a pattern into its abstract syntax tree.
///
/// The scan reads the pattern's code points once, left to right; the result
/// is exactly what the specification state machine denotes: the parsed
/// expression, or the first error the scan runs into.
pub fn parse(expr: &str) -> (r: Result<AST, ParseError>)
    ensures
        match r {
            Ok(a) => spec_parse(expr@) == Ok::<Re, ParseError>(a@),
            Err(e) => spec_parse(expr@) == Err::<Re, ParseError>(e),
        },
{
    let len = expr.unicode_len();
    let mut seq: Vec<AST> = Vec::new();
    let mut seq_or: Vec<AST> = Vec::new();
    let mut stack: Vec<(Vec<AST>, Vec<AST>)> = Vec::new();
    let mut escaped = false;
    let mut i: usize = 0;
    proof {
        assert(cur_view(seq@, seq_or@, stack@, escaped) =~~= p_init());
    }
    while i < len
        invariant
            i <= expr@.len(),
            len == expr@.len(),
            run_steps(expr@, i as nat) == Ok::<PState, ParseError>(
                cur_view(seq@, seq_or@, stack@, escaped),
            ),
        decreases len - i,
    {
        let ghost st = cur_view(seq@, seq_or@, stack@, escaped);
        let c = expr.get_char(i);
        if escaped {
            match parse_escape(i, c) {
                Ok(a) => {
                    seq.push(a);
                    escaped = false;
                    proof {
                        assert(asts_view(seq@) =~= st.seq.push(Re::Char(c)));
                        assert(p_step(st, c, i as int) == Ok::<PState, ParseError>(
                            cur_view(seq@, seq_or@, stack@, escaped),
                        ));
                    }
                },
                Err(e) => {
                    proof {
                        step_errs(expr@, i as nat, st, e);
                    }
                    return Err(e);
                },
            }
        } else if c == '+' || c == '*' || c == '?' {
            let t = if c == '+' {
                PSQ::Plus
            } else if c == '*' {
                PSQ::Star
            } else {
                PSQ::Question
            };
            match parse_plus_star_question(&mut seq, t, i) {
                Ok(_) => {
                    proof {
                        assert(p_step(st, c, i as int) == Ok::<PState, ParseError>(
                            cur_view(seq@, seq_or@, stack@, escaped),
                        ));
                    }
                },
                Err(e) => {
                    proof {
                        step_errs(expr@, i as nat, st, e);
                    }
                    return Err(e);
                },
            }
        } else if c == '(' {
            let prev = seq;
            let prev_or = seq_or;
            stack.push((prev, prev_or));
            seq = Vec::new();
            seq_or = Vec::new();
            proof {
                assert(asts_view(seq@) =~= Seq::<Re>::empty());
                assert(asts_view(seq_or@) =~= Seq::<Re>::empty());
                assert(stack_view(stack@) =~~= st.stack.push((st.seq, st.seq_or)));
                assert(p_step(st, c, i as int) == Ok::<PState, ParseError>(
                    cur_view(seq@, seq_or@, stack@, escaped),
                ));
            }
        } else if c == ')' {
            match stack.pop() {
                Some(ctx) => {
                    let ghost gprev: Seq<Re> = asts_view(ctx.0@);
                    let ghost gprev_or: Seq<Re> = asts_view(ctx.1@);
                    let ghost alts = close_alts(st);
                    proof {
                        assert(st.stack.last() == (gprev, gprev_or));
                        assert(stack_view(stack@) =~~= st.stack.drop_last());
                    }
                    let (mut prev, prev_or) = ctx;
                    if seq.len() > 0 {
                        let s = seq;
                        seq = Vec::new();
                        seq_or.push(AST::Cat(s));
                        proof {
                            assert(asts_view(seq_or@) =~= alts);
                        }
                    } else {
                        proof {
                            assert(asts_view(seq_or@) =~= alts);
                        }
                    }
                    let folded = fold_or(seq_or);
                    match folded {
                        Some(a) => {
                            prev.push(a);
                            proof {
                                assert(asts_view(prev@) =~= gprev.push(fold_or_ne(alts)));
                            }
                        },
                        None => {
                            proof {
                                assert(alts.len() == 0);
                                assert(asts_view(prev@) == gprev);
                            }
                        },
                    }
                    seq = prev;
                    seq_or = prev_or;
                    proof {
                        assert(asts_view(seq_or@) == gprev_or);
                        assert(p_step(st, c, i as int) == Ok::<PState, ParseError>(
                            cur_view(seq@, seq_or@, stack@, escaped),
                        ));
                    }
                },
                None => {
                    proof {
                        step_errs(expr@, i as nat, st, ParseError::InvalidRightParen(i));
                    }
                    return Err(ParseError::InvalidRightParen(i));
                },
            }
        } else if c == '|' {
            if seq.len() == 0 {
                proof {
                    step_errs(expr@, i as nat, st, ParseError::NoPrev(i));
                }
                return Err(ParseError::NoPrev(i));
            } else {
                let s = seq;
                seq = Vec::new();
                seq_or.push(AST::Cat(s));
                proof {
                    assert(asts_view(seq@) =~= Seq::<Re>::empty());
                    assert(asts_view(seq_or@) =~= st.seq_or.push(Re::Cat(st.seq)));
                    assert(p_step(st, c, i as int) == Ok::<PState, ParseError>(
                        cur_view(seq@, seq_or@, stack@, escaped),
                    ));
                }
            }
        } else if c == '\\' {
            escaped = true;
            proof {
                assert(p_step(st, c, i as int) == Ok::<PState, ParseError>(
                    cur_view(seq@, seq_or@, stack@, escaped),
                ));
            }
        } else {
            seq.push(AST::Char(c));
            proof {
                assert(asts_view(seq@) =~= st.seq.push(Re::Char(c)));
                assert(p_step(st, c, i as int) == Ok::<PState, ParseError>(
                    cur_view(seq@, seq_or@, stack@, escaped),
                ));
            }
        }
        proof {
            assert(run_steps(expr@, (i + 1) as nat) == Ok::<PState, ParseError>(
                cur_view(seq@, seq_or@, stack@, escaped),
            ));
        }
        i += 1;
    }
    let ghost st = cur_view(seq@, seq_or@, stack@, escaped);
    proof {
        assert(run_steps(expr@, expr@.len()) == Ok::<PState, ParseError>(st));
    }
    if stack.len() > 0 {
        return Err(ParseError::NoRightParen);
    }
    let ghost alts = close_alts(st);
    if seq.len() > 0 {
        let s = seq;
        seq = Vec::new();
        seq_or.push(AST::Cat(s));
        proof {
            assert(asts_view(seq_or@) =~= alts);
        }
    } else {
        proof {
            assert(asts_view(seq_or@) =~= alts);
        }
    }
    match fold_or(seq_or) {
        Some(a) => Ok(a),
        None => Err(ParseError::Empty),
    }
}

} // verus!
