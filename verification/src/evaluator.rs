//! Execution of a compiled program against a subject by depth-first
//! backtracking.
//!
//! The meaning of a program is `accepts`: some finite run from the start
//! state reaches `Match`.  The evaluator searches the branch tree depth
//! first — at a `Split`, the whole first branch before the second, first
//! success winning — and carries a step budget large enough that the
//! bounded search decides `accepts` exactly: an accepting run never needs
//! to revisit a state, so one of at most `code.len() * (line.len() + 2)`
//! steps exists whenever any does.  The budget also keeps every search
//! finite where an unbudgeted backtracker would follow an empty loop of
//! the program forever.  No memoization of visited states is done, so the
//! worst-case time stays exponential.
use vstd::prelude::*;

use vstd::set_lib::lemma_int_range;
use vstd::set_lib::lemma_len_subset;
use vstd::set_lib::set_int_range;

use crate::{prog_wf, Instruction};

verus! {

/// A run-time failure of the virtual machine.  On a well-formed program
/// none of these can arise; each signals an inconsistency between the code
/// generator and the evaluator, not a problem of the caller's input.
#[derive(Clone, Copy, Debug, PartialEq, Eq, Structural)]
pub enum EvalError {
    PCOverFlow,
    SPOverFlow,
    InvalidPC,
}

/// A run of at most `fuel` steps from `(pc, sp)` reaches `Match`.
/// A program counter outside the sequence ends the branch without success.
pub open spec fn accept_from(
    code: Seq<Instruction>,
    line: Seq<char>,
    pc: int,
    sp: int,
    fuel: nat,
) -> bool
    decreases fuel,
{
    if fuel == 0 {
        false
    } else if !(0 <= pc < code.len()) {
        false
    } else {
        match code[pc] {
            Instruction::Char(c) => 0 <= sp < line.len() && line[sp] == c && accept_from(
                code,
                line,
                pc + 1,
                sp + 1,
                (fuel - 1) as nat,
            ),
            Instruction::Match => true,
            Instruction::Jump(t) => accept_from(code, line, t as int, sp, (fuel - 1) as nat),
            Instruction::Split(a, b) => accept_from(code, line, a as int, sp, (fuel - 1) as nat)
                || accept_from(code, line, b as int, sp, (fuel - 1) as nat),
        }
    }
}

/// Some finite run from `(pc, sp)` reaches `Match`: the branch rooted at
/// that state can succeed.
pub open spec fn accepts(code: Seq<Instruction>, line: Seq<char>, pc: int, sp: int) -> bool {
    exists|fuel: nat| accept_from(code, line, pc, sp, fuel)
}

/// The step budget that decides `accepts`: one more than the states a
/// duplicate-free run can visit.
pub open spec fn fuel_bound(code: Seq<Instruction>, line: Seq<char>) -> nat {
    code.len() * (line.len() + 2)
}

/// The verdict of the depth-first search itself, step for step: the error
/// on a program counter outside the sequence, the first branch of a
/// `Split` decided before the second, and a branch out of fuel giving up
/// without success.
pub open spec fn spec_run(
    code: Seq<Instruction>,
    line: Seq<char>,
    pc: int,
    sp: int,
    fuel: nat,
) -> Result<bool, EvalError>
    decreases fuel,
{
    if !(0 <= pc < code.len()) {
        Err(EvalError::InvalidPC)
    } else if fuel == 0 {
        Ok(false)
    } else {
        match code[pc] {
            Instruction::Char(c) => if 0 <= sp < line.len() && line[sp] == c {
                spec_run(code, line, pc + 1, sp + 1, (fuel - 1) as nat)
            } else {
                Ok(false)
            },
            Instruction::Match => Ok(true),
            Instruction::Jump(t) => spec_run(code, line, t as int, sp, (fuel - 1) as nat),
            Instruction::Split(a, b) => match spec_run(code, line, a as int, sp, (fuel - 1) as nat) {
                Ok(true) => Ok(true),
                Ok(false) => spec_run(code, line, b as int, sp, (fuel - 1) as nat),
                Err(e) => Err(e),
            },
        }
    }
}

/// What evaluation from `(pc, sp)` returns: the search's verdict at the
/// step budget that decides acceptance.
pub open spec fn spec_eval(
    code: Seq<Instruction>,
    line: Seq<char>,
    pc: int,
    sp: int,
) -> Result<bool, EvalError> {
    spec_run(code, line, pc, sp, fuel_bound(code, line))
}

proof fn lemma_fuel_mono(code: Seq<Instruction>, line: Seq<char>, pc: int, sp: int, n: nat, m: nat)
    requires
        accept_from(code, line, pc, sp, n),
        n <= m,
    ensures
        accept_from(code, line, pc, sp, m),
    decreases n,
{
    match code[pc] {
        Instruction::Char(_) => {
            lemma_fuel_mono(code, line, pc + 1, sp + 1, (n - 1) as nat, (m - 1) as nat);
        },
        Instruction::Match => {},
        Instruction::Jump(t) => {
            lemma_fuel_mono(code, line, t as int, sp, (n - 1) as nat, (m - 1) as nat);
        },
        Instruction::Split(a, b) => {
            if accept_from(code, line, a as int, sp, (n - 1) as nat) {
                lemma_fuel_mono(code, line, a as int, sp, (n - 1) as nat, (m - 1) as nat);
            } else {
                lemma_fuel_mono(code, line, b as int, sp, (n - 1) as nat, (m - 1) as nat);
            }
        },
    }
}

/// One machine step between two states; `Match` has no successor.
spec fn step_ok(
    code: Seq<Instruction>,
    line: Seq<char>,
    s1: (int, int),
    s2: (int, int),
) -> bool {
    &&& 0 <= s1.0 < code.len()
    &&& match code[s1.0] {
        Instruction::Char(c) => 0 <= s1.1 < line.len() && line[s1.1] == c && s2 == (
            s1.0 + 1,
            s1.1 + 1,
        ),
        Instruction::Match => false,
        Instruction::Jump(t) => s2 == (t as int, s1.1),
        Instruction::Split(a, b) => s2 == (a as int, s1.1) || s2 == (b as int, s1.1),
    }
}

/// A sequence of states walked step by step, ending at a `Match`.
spec fn is_run(code: Seq<Instruction>, line: Seq<char>, r: Seq<(int, int)>) -> bool {
    &&& r.len() >= 1
    &&& forall|k: int| 0 <= k < r.len() - 1 ==> #[trigger] step_ok(code, line, r[k], r[k + 1])
    &&& 0 <= r.last().0 < code.len()
    &&& code[r.last().0] is Match
}

/// A witness of `accept_from` yields an accepting run no longer than the
/// fuel spent.
proof fn lemma_fuel_to_run(
    code: Seq<Instruction>,
    line: Seq<char>,
    pc: int,
    sp: int,
    fuel: nat,
) -> (r: Seq<(int, int)>)
    requires
        accept_from(code, line, pc, sp, fuel),
    ensures
        is_run(code, line, r),
        r[0] == (pc, sp),
        1 <= r.len() <= fuel,
    decreases fuel,
{
    match code[pc] {
        Instruction::Match => {
            let r = seq![(pc, sp)];
            assert(r.last() == (pc, sp));
            r
        },
        Instruction::Char(_) => {
            let tail = lemma_fuel_to_run(code, line, pc + 1, sp + 1, (fuel - 1) as nat);
            let r = seq![(pc, sp)] + tail;
            assert forall|k: int| 0 <= k < r.len() - 1 implies #[trigger] step_ok(
                code,
                line,
                r[k],
                r[k + 1],
            ) by {
                if k == 0 {
                    assert(r[0] == (pc, sp));
                    assert(r[1] == tail[0]);
                } else {
                    let j = k - 1;
                    assert(step_ok(code, line, tail[j], tail[j + 1]));
                    assert(r[k] == tail[j]);
                    assert(r[k + 1] == tail[j + 1]);
                }
            }
            assert(r.last() == tail.last());
            r
        },
        Instruction::Jump(t) => {
            let tail = lemma_fuel_to_run(code, line, t as int, sp, (fuel - 1) as nat);
            let r = seq![(pc, sp)] + tail;
            assert forall|k: int| 0 <= k < r.len() - 1 implies #[trigger] step_ok(
                code,
                line,
                r[k],
                r[k + 1],
            ) by {
                if k == 0 {
                    assert(r[0] == (pc, sp));
                    assert(r[1] == tail[0]);
                } else {
                    let j = k - 1;
                    assert(step_ok(code, line, tail[j], tail[j + 1]));
                    assert(r[k] == tail[j]);
                    assert(r[k + 1] == tail[j + 1]);
                }
            }
            assert(r.last() == tail.last());
            r
        },
        Instruction::Split(a, b) => {
            let tail = if accept_from(code, line, a as int, sp, (fuel - 1) as nat) {
                lemma_fuel_to_run(code, line, a as int, sp, (fuel - 1) as nat)
            } else {
                lemma_fuel_to_run(code, line, b as int, sp, (fuel - 1) as nat)
            };
            let r = seq![(pc, sp)] + tail;
            assert forall|k: int| 0 <= k < r.len() - 1 implies #[trigger] step_ok(
                code,
                line,
                r[k],
                r[k + 1],
            ) by {
                if k == 0 {
                    assert(r[0] == (pc, sp));
                    assert(r[1] == tail[0]);
                } else {
                    let j = k - 1;
                    assert(step_ok(code, line, tail[j], tail[j + 1]));
                    assert(r[k] == tail[j]);
                    assert(r[k + 1] == tail[j + 1]);
                }
            }
            assert(r.last() == tail.last());
            r
        },
    }
}

/// An accepting run of length `n` is a witness of `accept_from` at fuel `n`.
proof fn lemma_run_to_fuel(code: Seq<Instruction>, line: Seq<char>, r: Seq<(int, int)>)
    requires
        is_run(code, line, r),
    ensures
        accept_from(code, line, r[0].0, r[0].1, r.len() as nat),
    decreases r.len(),
{
    if r.len() == 1 {
        assert(r.last() == r[0]);
    } else {
        let tail = r.skip(1);
        assert forall|k: int| 0 <= k < tail.len() - 1 implies #[trigger] step_ok(
            code,
            line,
            tail[k],
            tail[k + 1],
        ) by {
            assert(tail[k] == r[k + 1]);
            assert(tail[k + 1] == r[k + 2]);
            assert(step_ok(code, line, r[k + 1], r[k + 2]));
        }
        assert(tail.last() == r.last());
        lemma_run_to_fuel(code, line, tail);
        assert(step_ok(code, line, r[0], r[1]));
        assert(tail[0] == r[1]);
    }
}

/// Cutting the piece between two visits of one state leaves an accepting
/// run; iterated, it yields one that never revisits a state.
proof fn lemma_run_dedup(code: Seq<Instruction>, line: Seq<char>, r: Seq<(int, int)>) -> (r2: Seq<
    (int, int),
>)
    requires
        is_run(code, line, r),
    ensures
        is_run(code, line, r2),
        r2[0] == r[0],
        r2.len() <= r.len(),
        r2.no_duplicates(),
    decreases r.len(),
{
    if exists|i: int, j: int| 0 <= i < j < r.len() && r[i] == r[j] {
        let (i, j) = choose|i: int, j: int| 0 <= i < j < r.len() && r[i] == r[j];
        let cut = r.take(i) + r.skip(j);
        assert(cut.len() == r.len() - (j - i));
        assert forall|k: int| 0 <= k < cut.len() - 1 implies #[trigger] step_ok(
            code,
            line,
            cut[k],
            cut[k + 1],
        ) by {
            if k + 1 < i {
                assert(cut[k] == r[k]);
                assert(cut[k + 1] == r[k + 1]);
                assert(step_ok(code, line, r[k], r[k + 1]));
            } else if k + 1 == i {
                assert(cut[k] == r[k]);
                assert(cut[k + 1] == r.skip(j)[0]);
                assert(cut[k + 1] == r[j]);
                assert(r[j] == r[i]);
                assert(step_ok(code, line, r[k], r[k + 1]));
            } else {
                assert(cut[k] == r[k + (j - i)]);
                assert(cut[k + 1] == r[k + 1 + (j - i)]);
                assert(step_ok(code, line, r[k + (j - i)], r[k + (j - i) + 1]));
            }
        }
        assert(cut.last() == r.last());
        if i == 0 {
            assert(cut[0] == r.skip(j)[0]);
            assert(cut[0] == r[j]);
        } else {
            assert(cut[0] == r[0]);
        }
        let r2 = lemma_run_dedup(code, line, cut);
        r2
    } else {
        assert forall|i: int, j: int|
            0 <= i < r.len() && 0 <= j < r.len() && i != j implies r[i] != r[j] by {
            if i < j {
                assert(!(0 <= i < j < r.len() && r[i] == r[j]));
            } else {
                assert(!(0 <= j < i < r.len() && r[j] == r[i]));
            }
        }
        r
    }
}

/// Along a run, the program counter stays inside the code and the string
/// pointer either keeps its starting value or stays inside the subject's
/// bounds.
proof fn lemma_run_shape(code: Seq<Instruction>, line: Seq<char>, r: Seq<(int, int)>, k: int)
    requires
        is_run(code, line, r),
        0 <= k < r.len(),
    ensures
        0 <= r[k].0 < code.len(),
        r[k].1 == r[0].1 || 0 <= r[k].1 <= line.len(),
    decreases k,
{
    if k == r.len() - 1 {
    } else {
        assert(step_ok(code, line, r[k], r[k + 1]));
    }
    if k > 0 {
        let j = k - 1;
        lemma_run_shape(code, line, r, j);
        assert(step_ok(code, line, r[j], r[j + 1]));
        assert(r[j + 1] == r[k]);
    }
}

/// A run that never revisits a state visits at most
/// `code.len() * (line.len() + 2)` states: each state is one of that many.
proof fn lemma_distinct_run_len(code: Seq<Instruction>, line: Seq<char>, r: Seq<(int, int)>)
    requires
        is_run(code, line, r),
        r.no_duplicates(),
    ensures
        r.len() <= code.len() * (line.len() + 2),
{
    let l = code.len() as int;
    let s = line.len() as int;
    let sp0 = r[0].1;
    let idxs = Seq::new(
        r.len(),
        |k: int| r[k].0 * (s + 2) + (if r[k].1 == sp0 { s + 1 } else { r[k].1 }),
    );
    assert forall|k: int| #![trigger idxs[k]] 0 <= k < idxs.len() implies 0 <= idxs[k] < l * (s + 2) by {
        lemma_run_shape(code, line, r, k);
        let comp = if r[k].1 == sp0 {
            s + 1
        } else {
            r[k].1
        };
        assert(0 <= comp < s + 2);
        assert(0 <= r[k].0 * (s + 2) + comp < l * (s + 2)) by (nonlinear_arith)
            requires
                0 <= r[k].0 < l,
                0 <= comp < s + 2,
        ;
    }
    assert forall|i: int, j: int|
        0 <= i < idxs.len() && 0 <= j < idxs.len() && i != j implies idxs[i] != idxs[j] by {
        lemma_run_shape(code, line, r, i);
        lemma_run_shape(code, line, r, j);
        let ci = if r[i].1 == sp0 {
            s + 1
        } else {
            r[i].1
        };
        let cj = if r[j].1 == sp0 {
            s + 1
        } else {
            r[j].1
        };
        assert(r[i] != r[j]);
        assert(0 <= ci < s + 2);
        assert(0 <= cj < s + 2);
        if r[i].0 == r[j].0 {
            assert(ci != cj);
        } else {
            assert(r[i].0 * (s + 2) + ci != r[j].0 * (s + 2) + cj) by (nonlinear_arith)
                requires
                    r[i].0 != r[j].0,
                    0 <= ci < s + 2,
                    0 <= cj < s + 2,
            ;
        }
    }
    idxs.unique_seq_to_set();
    lemma_int_range(0, l * (s + 2));
    assert forall|x: int| idxs.to_set().contains(x) implies set_int_range(0, l * (s + 2)).contains(
        x,
    ) by {
        let k = choose|k: int| 0 <= k < idxs.len() && idxs[k] == x;
        assert(0 <= idxs[k] < l * (s + 2));
    }
    lemma_len_subset(idxs.to_set(), set_int_range(0, l * (s + 2)));
}

/// The step budget `fuel_bound` decides acceptance: whenever any accepting
/// run exists, one fits the budget.
proof fn lemma_accepts_bounded(code: Seq<Instruction>, line: Seq<char>, pc: int, sp: int)
    requires
        accepts(code, line, pc, sp),
    ensures
        accept_from(code, line, pc, sp, fuel_bound(code, line)),
{
    let fuel = choose|fuel: nat| accept_from(code, line, pc, sp, fuel);
    let r = lemma_fuel_to_run(code, line, pc, sp, fuel);
    let r2 = lemma_run_dedup(code, line, r);
    lemma_distinct_run_len(code, line, r2);
    lemma_run_to_fuel(code, line, r2);
    lemma_fuel_mono(code, line, pc, sp, r2.len() as nat, fuel_bound(code, line));
}

/// Depth-first search of the branch tree from `(pc, sp)`, spending one
/// fuel unit per step: the first `Split` branch is exhausted before the
/// second is tried, and the first success wins.
fn run_from(insts: &[Instruction], line: &[char], pc: usize, sp: usize, fuel: u128) -> (r: Result<
    bool,
    EvalError,
>)
    ensures
        r == spec_run(insts@, line@, pc as int, sp as int, fuel as nat),
        r matches Ok(b) ==> b == accept_from(insts@, line@, pc as int, sp as int, fuel as nat),
        prog_wf(insts@) && pc < insts@.len() ==> !(r is Err),
        r is Err ==> r == Err::<bool, EvalError>(EvalError::InvalidPC),
    decreases fuel,
{
    if pc >= insts.len() {
        proof {
            if prog_wf(insts@) && pc < insts@.len() {
                assert(false);
            }
        }
        return Err(EvalError::InvalidPC);
    }
    if fuel == 0 {
        return Ok(false);
    }
    let inst = insts[pc];
    match inst {
        Instruction::Char(c) => {
            if sp < line.len() {
                let d = line[sp];
                if c == d {
                    proof {
                        if prog_wf(insts@) {
                            assert(insts@.last() == Instruction::Match);
                            assert(pc != insts@.len() - 1);
                        }
                    }
                    run_from(insts, line, pc + 1, sp + 1, fuel - 1)
                } else {
                    Ok(false)
                }
            } else {
                Ok(false)
            }
        },
        Instruction::Match => Ok(true),
        Instruction::Jump(t) => run_from(insts, line, t, sp, fuel - 1),
        Instruction::Split(a, b) => {
            match run_from(insts, line, a, sp, fuel - 1) {
                Ok(true) => Ok(true),
                Ok(false) => run_from(insts, line, b, sp, fuel - 1),
                Err(e) => Err(e),
            }
        },
    }
}

/// Runs the program by depth-first backtracking from the state `(pc, sp)`.
///
/// The verdict is exact: `Ok(true)` exactly when some run from the start
/// state reaches `Match`.  On a well-formed program started inside the
/// sequence no run-time error can arise.
pub fn eval_depth(insts: &[Instruction], line: &[char], pc: usize, sp: usize) -> (r: Result<
    bool,
    EvalError,
>)
    ensures
        r == spec_eval(insts@, line@, pc as int, sp as int),
        r matches Ok(b) ==> b == accepts(insts@, line@, pc as int, sp as int),
        prog_wf(insts@) && pc < insts@.len() ==> !(r is Err),
        r is Err ==> r == Err::<bool, EvalError>(EvalError::InvalidPC),
{
    let l = insts.len() as u128;
    let s = line.len() as u128;
    proof {
        assert(l * (s + 2) <= u128::MAX && l * (s + 2) == fuel_bound(insts@, line@)) by (
        nonlinear_arith)
            requires
                l == insts@.len(),
                s == line@.len(),
                0 <= l <= u64::MAX,
                0 <= s <= u64::MAX,
        ;
    }
    let fuel = l * (s + 2);
    let r = run_from(insts, line, pc, sp, fuel);
    proof {
        match r {
            Ok(b) => {
                if b {
                    assert(accept_from(insts@, line@, pc as int, sp as int, fuel as nat));
                    assert(accepts(insts@, line@, pc as int, sp as int));
                } else {
                    if accepts(insts@, line@, pc as int, sp as int) {
                        lemma_accepts_bounded(insts@, line@, pc as int, sp as int);
                    }
                }
            },
            Err(_) => {},
        }
    }
    r
}

/// Runs a compiled program against the subject's code points.
///
/// `Ok(true)` exactly when some prefix of the subject satisfies the
/// program, starting at its first instruction.  `_is_depth` selects
/// depth-first search when true; the breadth-first strategy is not
/// realized, so both values behave identically.
pub fn eval(insts: &[Instruction], line: &[char], _is_depth: bool) -> (r: Result<bool, EvalError>)
    ensures
        r == spec_eval(insts@, line@, 0, 0),
        r matches Ok(b) ==> b == accepts(insts@, line@, 0, 0),
        prog_wf(insts@) ==> !(r is Err),
        r is Err ==> r == Err::<bool, EvalError>(EvalError::InvalidPC),
{
    eval_depth(insts, line, 0, 0)
}

} // verus!
