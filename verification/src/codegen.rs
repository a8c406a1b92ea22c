//! Compilation of an abstract syntax tree into the virtual machine's
//! instruction sequence.
//!
//! Emission is recursive over the tree; every address is resolved before
//! the sequence is returned, and a single `Match` instruction is appended
//! after the top-level expression's code.  The exact sequence a tree
//! compiles to is given by `spec_prog`, and `lemma_compiled_well_formed`
//! shows every compiled program well formed.
use vstd::prelude::*;

use crate::ast::{ast_view, asts_view, AST, Re};
use crate::{prog_wf, Instruction};

verus! {

broadcast use {crate::ast::lemma_asts_view_len, crate::ast::lemma_asts_view_index};

/// A code-generation failure: a resolved address would not fit the index
/// range.  An internal limit, never reached by patterns of ordinary size.
#[derive(Clone, Copy, Debug, PartialEq, Eq, Structural)]
pub enum CodeGenError {
    PCOverFlow,
}

/// How many instructions an expression compiles to.
pub open spec fn code_len(re: Re) -> nat
    decreases re,
{
    match re {
        Re::Char(_) => 1,
        Re::Plus(a) => code_len(*a) + 1,
        Re::Star(a) => code_len(*a) + 2,
        Re::Question(a) => code_len(*a) + 1,
        Re::Or(a, b) => code_len(*a) + code_len(*b) + 2,
        Re::Cat(s) => code_len_seq(s),
    }
}

pub open spec fn code_len_seq(s: Seq<Re>) -> nat
    decreases s,
{
    if s.len() == 0 {
        0
    } else {
        code_len(s[0]) + code_len_seq(s.skip(1))
    }
}

/// The instruction sequence an expression compiles to when emission starts
/// at address `base`.
///
/// - `Char(c)` is one matching instruction.
/// - `Cat` concatenates its children's code in order.
/// - `Or(a, b)` emits `Split(L1, L2); L1: a; Jump(L3); L2: b; L3:`,
///   trying `a` first.
/// - `Star(a)` emits `L1: Split(L2, L3); L2: a; Jump(L1); L3:`,
///   preferring the loop body.
/// - `Plus(a)` emits `L1: a; Split(L1, L2); L2:`, preferring repetition.
/// - `Question(a)` emits `Split(L1, L2); L1: a; L2:`, preferring presence.
pub open spec fn spec_prog(re: Re, base: nat) -> Seq<Instruction>
    decreases re,
{
    match re {
        Re::Char(c) => seq![Instruction::Char(c)],
        Re::Plus(a) => spec_prog(*a, base) + seq![
            Instruction::Split(base as usize, (base + code_len(*a) + 1) as usize),
        ],
        Re::Star(a) => seq![
            Instruction::Split((base + 1) as usize, (base + 2 + code_len(*a)) as usize),
        ] + spec_prog(*a, base + 1) + seq![Instruction::Jump(base as usize)],
        Re::Question(a) => seq![
            Instruction::Split((base + 1) as usize, (base + 1 + code_len(*a)) as usize),
        ] + spec_prog(*a, base + 1),
        Re::Or(a, b) => seq![
            Instruction::Split((base + 1) as usize, (base + 2 + code_len(*a)) as usize),
        ] + spec_prog(*a, base + 1) + seq![
            Instruction::Jump((base + 2 + code_len(*a) + code_len(*b)) as usize),
        ] + spec_prog(*b, base + 2 + code_len(*a)),
        Re::Cat(s) => spec_prog_seq(s, base),
    }
}

pub open spec fn spec_prog_seq(s: Seq<Re>, base: nat) -> Seq<Instruction>
    decreases s,
{
    if s.len() == 0 {
        Seq::empty()
    } else {
        spec_prog(s[0], base) + spec_prog_seq(s.skip(1), base + code_len(s[0]))
    }
}

proof fn lemma_spec_prog_len(re: Re, base: nat)
    ensures
        spec_prog(re, base).len() == code_len(re),
    decreases re,
{
    match re {
        Re::Char(_) => {},
        Re::Plus(a) => {
            lemma_spec_prog_len(*a, base);
        },
        Re::Star(a) => {
            lemma_spec_prog_len(*a, base + 1);
        },
        Re::Question(a) => {
            lemma_spec_prog_len(*a, base + 1);
        },
        Re::Or(a, b) => {
            lemma_spec_prog_len(*a, base + 1);
            lemma_spec_prog_len(*b, base + 2 + code_len(*a));
        },
        Re::Cat(s) => {
            lemma_spec_prog_seq_len(s, base);
        },
    }
}

proof fn lemma_spec_prog_seq_len(s: Seq<Re>, base: nat)
    ensures
        spec_prog_seq(s, base).len() == code_len_seq(s),
    decreases s,
{
    if s.len() > 0 {
        lemma_spec_prog_len(s[0], base);
        lemma_spec_prog_seq_len(s.skip(1), base + code_len(s[0]));
    }
}

/// No instruction of an expression's code is `Match`, and every branch
/// target lies between `base` and one past the code's end.
spec fn block_ok(code: Seq<Instruction>, base: nat, len: nat) -> bool {
    forall|i: int| 0 <= i < code.len() ==> match #[trigger] code[i] {
        Instruction::Char(_) => true,
        Instruction::Match => false,
        Instruction::Jump(t) => base <= t <= base + len,
        Instruction::Split(a, b) => base <= a <= base + len && base <= b <= base + len,
    }
}

proof fn lemma_spec_prog_block_ok(re: Re, base: nat)
    requires
        base + code_len(re) <= usize::MAX,
    ensures
        block_ok(spec_prog(re, base), base, code_len(re)),
    decreases re,
{
    lemma_spec_prog_len(re, base);
    match re {
        Re::Char(_) => {},
        Re::Plus(a) => {
            lemma_spec_prog_len(*a, base);
            lemma_spec_prog_block_ok(*a, base);
        },
        Re::Star(a) => {
            lemma_spec_prog_len(*a, base + 1);
            lemma_spec_prog_block_ok(*a, base + 1);
        },
        Re::Question(a) => {
            lemma_spec_prog_len(*a, base + 1);
            lemma_spec_prog_block_ok(*a, base + 1);
        },
        Re::Or(a, b) => {
            lemma_spec_prog_len(*a, base + 1);
            lemma_spec_prog_len(*b, base + 2 + code_len(*a));
            lemma_spec_prog_block_ok(*a, base + 1);
            lemma_spec_prog_block_ok(*b, base + 2 + code_len(*a));
        },
        Re::Cat(s) => {
            lemma_spec_prog_seq_block_ok(s, base);
        },
    }
}

proof fn lemma_spec_prog_seq_block_ok(s: Seq<Re>, base: nat)
    requires
        base + code_len_seq(s) <= usize::MAX,
    ensures
        block_ok(spec_prog_seq(s, base), base, code_len_seq(s)),
    decreases s,
{
    lemma_spec_prog_seq_len(s, base);
    if s.len() > 0 {
        lemma_spec_prog_len(s[0], base);
        lemma_spec_prog_seq_len(s.skip(1), base + code_len(s[0]));
        lemma_spec_prog_block_ok(s[0], base);
        lemma_spec_prog_seq_block_ok(s.skip(1), base + code_len(s[0]));
    }
}

/// Every successfully compiled program is well formed: `Match` stands
/// exactly once, at the final address, and every `Jump`/`Split` target is a
/// valid index of the sequence.
pub proof fn lemma_compiled_well_formed(re: Re)
    requires
        code_len(re) + 1 <= usize::MAX,
    ensures
        prog_wf(spec_prog(re, 0) + seq![Instruction::Match]),
{
    lemma_spec_prog_len(re, 0);
    lemma_spec_prog_block_ok(re, 0);
    let full = spec_prog(re, 0) + seq![Instruction::Match];
    assert(full.last() == Instruction::Match);
    assert forall|i: int| 0 <= i < full.len() - 1 implies !(#[trigger] full[i] is Match) by {
        assert(full[i] == spec_prog(re, 0)[i]);
    }
    assert forall|i: int| 0 <= i < full.len() implies match #[trigger] full[i] {
        Instruction::Jump(t) => t < full.len(),
        Instruction::Split(a, b) => a < full.len() && b < full.len(),
        _ => true,
    } by {
        if i < full.len() - 1 {
            assert(full[i] == spec_prog(re, 0)[i]);
        }
    }
}

/// Emits the code of one expression at the current end of `insts`.
///
/// Succeeds exactly when the grown sequence still fits the address range;
/// on success precisely `spec_prog` of the node, based at the previous
/// length, has been appended.
#[verifier::loop_isolation(false)]
pub fn gen_expr(ast: &AST, insts: &mut Vec<Instruction>) -> (r: Result<(), CodeGenError>)
    ensures
        r is Ok <==> old(insts)@.len() + code_len(ast@) <= usize::MAX,
        r is Ok ==> final(insts)@ == old(insts)@ + spec_prog(ast@, old(insts)@.len()),
    decreases ast,
{
    proof {
        lemma_spec_prog_len(ast@, old(insts)@.len());
    }
    match ast {
        AST::Char(c) => {
            if insts.len() == usize::MAX {
                return Err(CodeGenError::PCOverFlow);
            }
            insts.push(Instruction::Char(*c));
            proof {
                assert(insts@ =~= old(insts)@ + spec_prog(ast@, old(insts)@.len()));
            }
            Ok(())
        },
        AST::Plus(a) => {
            let l1 = insts.len();
            match gen_expr(&*a, insts) {
                Ok(_) => {},
                Err(e) => {
                    return Err(e);
                },
            }
            proof {
                lemma_spec_prog_len(ast_view(**a), l1 as nat);
            }
            if insts.len() == usize::MAX {
                return Err(CodeGenError::PCOverFlow);
            }
            let split_idx = insts.len();
            insts.push(Instruction::Split(l1, split_idx + 1));
            proof {
                assert(insts@ =~= old(insts)@ + spec_prog(ast@, l1 as nat));
            }
            Ok(())
        },
        AST::Star(a) => {
            let l1 = insts.len();
            if insts.len() == usize::MAX {
                return Err(CodeGenError::PCOverFlow);
            }
            insts.push(Instruction::Split(0, 0));
            match gen_expr(&*a, insts) {
                Ok(_) => {},
                Err(e) => {
                    return Err(e);
                },
            }
            proof {
                lemma_spec_prog_len(ast_view(**a), l1 as nat + 1);
            }
            if insts.len() == usize::MAX {
                return Err(CodeGenError::PCOverFlow);
            }
            insts.push(Instruction::Jump(l1));
            let end = insts.len();
            insts[l1] = Instruction::Split(l1 + 1, end);
            proof {
                assert(insts@ =~= old(insts)@ + spec_prog(ast@, l1 as nat));
            }
            Ok(())
        },
        AST::Question(a) => {
            let s_idx = insts.len();
            if insts.len() == usize::MAX {
                return Err(CodeGenError::PCOverFlow);
            }
            insts.push(Instruction::Split(0, 0));
            match gen_expr(&*a, insts) {
                Ok(_) => {},
                Err(e) => {
                    return Err(e);
                },
            }
            proof {
                lemma_spec_prog_len(ast_view(**a), s_idx as nat + 1);
            }
            let end = insts.len();
            insts[s_idx] = Instruction::Split(s_idx + 1, end);
            proof {
                assert(insts@ =~= old(insts)@ + spec_prog(ast@, s_idx as nat));
            }
            Ok(())
        },
        AST::Or(a, b) => {
            let split_idx = insts.len();
            if insts.len() == usize::MAX {
                return Err(CodeGenError::PCOverFlow);
            }
            insts.push(Instruction::Split(0, 0));
            match gen_expr(&*a, insts) {
                Ok(_) => {},
                Err(e) => {
                    return Err(e);
                },
            }
            proof {
                lemma_spec_prog_len(ast_view(**a), split_idx as nat + 1);
            }
            let jmp_idx = insts.len();
            if insts.len() == usize::MAX {
                return Err(CodeGenError::PCOverFlow);
            }
            insts.push(Instruction::Jump(0));
            match gen_expr(&*b, insts) {
                Ok(_) => {},
                Err(e) => {
                    return Err(e);
                },
            }
            proof {
                lemma_spec_prog_len(ast_view(**b), jmp_idx as nat + 1);
            }
            let end = insts.len();
            insts[split_idx] = Instruction::Split(split_idx + 1, jmp_idx + 1);
            insts[jmp_idx] = Instruction::Jump(end);
            proof {
                assert(insts@ =~= old(insts)@ + spec_prog(ast@, split_idx as nat));
            }
            Ok(())
        },
        AST::Cat(v) => {
            let ghost base = insts@.len();
            let ghost vs = asts_view(v@);
            let mut idx: usize = 0;
            while idx < v.len()
                invariant
                    idx <= v@.len(),
                    vs == asts_view(v@),
                    ast@ == Re::Cat(vs),
                    base + code_len_seq(vs.take(idx as int)) == insts@.len(),
                    insts@ == old(insts)@ + spec_prog_seq(vs.take(idx as int), base),
                    old(insts)@.len() == base,
                decreases v@.len() - idx,
            {
                let ghost prefix = vs.take(idx as int);
                let ghost mid = insts@.len();
                proof {
                    assert((*ast)->Cat_0 == *v);
                    assert(decreases_to!(*ast => (*ast)->Cat_0));
                    assert(decreases_to!(*v => v@[idx as int]));
                }
                match gen_expr(&v[idx], insts) {
                    Ok(_) => {},
                    Err(e) => {
                        proof {
                            lemma_code_len_seq_bound(vs, idx as int);
                        }
                        return Err(e);
                    },
                }
                proof {
                    lemma_spec_prog_len(vs[idx as int], mid as nat);
                    assert(vs.take(idx + 1) =~= prefix.push(vs[idx as int]));
                    lemma_code_len_seq_push(prefix, vs[idx as int]);
                    lemma_spec_prog_seq_push(prefix, vs[idx as int], base);
                    assert(insts@ =~= old(insts)@ + spec_prog_seq(vs.take(idx + 1), base));
                }
                idx += 1;
            }
            let total = insts.len();
            proof {
                assert(vs.take(vs.len() as int) =~= vs);
                assert(old(insts)@.len() + code_len(ast@) == total as nat);
            }
            Ok(())
        },
    }
}

/// Appending one expression extends the instruction count by its own.
proof fn lemma_code_len_seq_push(s: Seq<Re>, x: Re)
    ensures
        code_len_seq(s.push(x)) == code_len_seq(s) + code_len(x),
    decreases s,
{
    if s.len() == 0 {
        assert(s.push(x)[0] == x);
        assert(s.push(x).skip(1) =~= Seq::<Re>::empty());
        assert(code_len_seq(s.push(x).skip(1)) == 0);
    } else {
        assert(s.push(x)[0] == s[0]);
        assert(s.push(x).skip(1) =~= s.skip(1).push(x));
        lemma_code_len_seq_push(s.skip(1), x);
    }
}

/// Appending one expression extends the code by that expression's code,
/// based at the end of the code before it.
proof fn lemma_spec_prog_seq_push(s: Seq<Re>, x: Re, base: nat)
    ensures
        spec_prog_seq(s.push(x), base) == spec_prog_seq(s, base) + spec_prog(
            x,
            base + code_len_seq(s),
        ),
    decreases s,
{
    if s.len() == 0 {
        assert(s.push(x)[0] == x);
        assert(s.push(x).skip(1) =~= Seq::<Re>::empty());
        assert(spec_prog_seq(s.push(x).skip(1), base + code_len(x)) == Seq::<
            Instruction,
        >::empty());
        assert(spec_prog_seq(s.push(x), base) =~= spec_prog_seq(s, base) + spec_prog(
            x,
            base + code_len_seq(s),
        ));
    } else {
        assert(s.push(x)[0] == s[0]);
        assert(s.push(x).skip(1) =~= s.skip(1).push(x));
        lemma_spec_prog_seq_push(s.skip(1), x, base + code_len(s[0]));
        assert(spec_prog_seq(s.push(x), base) =~= spec_prog_seq(s, base) + spec_prog(
            x,
            base + code_len_seq(s),
        ));
    }
}

/// A prefix never holds more instructions than the whole list.
proof fn lemma_code_len_seq_prefix_mono(s: Seq<Re>, i: int)
    requires
        0 <= i <= s.len(),
    ensures
        code_len_seq(s.take(i)) <= code_len_seq(s),
    decreases s.len() - i,
{
    if i < s.len() {
        assert(s.take(i + 1) =~= s.take(i).push(s[i]));
        lemma_code_len_seq_push(s.take(i), s[i]);
        lemma_code_len_seq_prefix_mono(s, i + 1);
    } else {
        assert(s.take(i) =~= s);
    }
}

/// A child's code, after the prefix before it, still fits the whole
/// list's instruction count.
proof fn lemma_code_len_seq_bound(s: Seq<Re>, i: int)
    requires
        0 <= i < s.len(),
    ensures
        code_len_seq(s.take(i)) + code_len(s[i]) <= code_len_seq(s),
{
    assert(s.take(i + 1) =~= s.take(i).push(s[i]));
    lemma_code_len_seq_push(s.take(i), s[i]);
    lemma_code_len_seq_prefix_mono(s, i + 1);
}

/// Compiles a parsed pattern into its full program: the expression's code
/// followed by the single `Match` instruction.
///
/// Succeeds exactly when the program fits the address range.
pub fn get_code(ast: &AST) -> (r: Result<Vec<Instruction>, CodeGenError>)
    ensures
        r matches Ok(code) ==> code@ == spec_prog(ast@, 0) + seq![Instruction::Match],
        r is Ok <==> code_len(ast@) + 1 <= usize::MAX,
{
    let mut insts: Vec<Instruction> = Vec::new();
    match gen_expr(ast, &mut insts) {
        Ok(_) => {},
        Err(e) => {
            return Err(e);
        },
    }
    if insts.len() == usize::MAX {
        proof {
            lemma_spec_prog_len(ast@, 0);
        }
        return Err(CodeGenError::PCOverFlow);
    }
    proof {
        lemma_spec_prog_len(ast@, 0);
    }
    insts.push(Instruction::Match);
    Ok(insts)
}

} // verus!
