//! Textual rendering of instructions and errors for diagnostics: one line
//! per instruction, and one descriptive line per error.  The rendering is
//! not a stable interchange format.
use vstd::prelude::*;

use crate::codegen::CodeGenError;
use crate::evaluator::EvalError;
use crate::parser::ParseError;
use crate::Instruction;

verus! {

/// The decimal digits of `n`, most significant first.
pub open spec fn dec_rep(n: nat) -> Seq<char>
    decreases n,
{
    if n < 10 {
        seq![dec_digit(n)]
    } else {
        dec_rep(n / 10).push(dec_digit(n % 10))
    }
}

pub open spec fn dec_digit(d: nat) -> char {
    if d == 0 {
        '0'
    } else if d == 1 {
        '1'
    } else if d == 2 {
        '2'
    } else if d == 3 {
        '3'
    } else if d == 4 {
        '4'
    } else if d == 5 {
        '5'
    } else if d == 6 {
        '6'
    } else if d == 7 {
        '7'
    } else if d == 8 {
        '8'
    } else {
        '9'
    }
}

/// The decimal digits of `n`, left-padded with zeros to at least four
/// places, as an address is shown in a rendered instruction.
pub open spec fn pad4(n: nat) -> Seq<char> {
    if n < 10 {
        "000"@ + dec_rep(n)
    } else if n < 100 {
        "00"@ + dec_rep(n)
    } else if n < 1000 {
        "0"@ + dec_rep(n)
    } else {
        dec_rep(n)
    }
}

/// Appends one code point.  Relies on std's `String::push`, which vstd
/// gives no specification: it appends exactly the given character.
#[verifier::external_body]
fn push_char(s: &mut String, c: char)
    ensures
        final(s)@ == old(s)@ + seq![c],
{
    s.push(c);
}

fn digit_char(d: usize) -> (c: char)
    requires
        d < 10,
    ensures
        c == dec_digit(d as nat),
{
    if d == 0 {
        '0'
    } else if d == 1 {
        '1'
    } else if d == 2 {
        '2'
    } else if d == 3 {
        '3'
    } else if d == 4 {
        '4'
    } else if d == 5 {
        '5'
    } else if d == 6 {
        '6'
    } else if d == 7 {
        '7'
    } else if d == 8 {
        '8'
    } else {
        '9'
    }
}

/// Appends the decimal digits of `n`.
fn push_decimal(s: &mut String, n: usize)
    ensures
        final(s)@ == old(s)@ + dec_rep(n as nat),
    decreases n,
{
    if n >= 10 {
        push_decimal(s, n / 10);
    }
    let c = digit_char(n % 10);
    push_char(s, c);
    proof {
        assert(s@ =~= old(s)@ + dec_rep(n as nat));
    }
}

/// Appends the decimal digits of `n`, zero-padded to four places.
fn push_padded(s: &mut String, n: usize)
    ensures
        final(s)@ == old(s)@ + pad4(n as nat),
{
    if n < 10 {
        s.append("000");
    } else if n < 100 {
        s.append("00");
    } else if n < 1000 {
        s.append("0");
    }
    push_decimal(s, n);
    proof {
        assert(s@ =~= old(s)@ + pad4(n as nat));
    }
}

impl Instruction {
    /// The diagnostic line of this instruction: `char <c>`, `match`,
    /// `jump <addr>` or `split <addr1>, <addr2>`, with each address in
    /// four zero-padded decimal places.
    pub open spec fn spec_render(self) -> Seq<char> {
        match self {
            Instruction::Char(c) => "char "@ + seq![c],
            Instruction::Match => "match"@,
            Instruction::Jump(t) => "jump "@ + pad4(t as nat),
            Instruction::Split(a, b) => "split "@ + pad4(a as nat) + ", "@ + pad4(b as nat),
        }
    }

    /// Renders this instruction as its diagnostic line.
    pub fn render(&self) -> (s: String)
        ensures
            s@ == self.spec_render(),
    {
        let mut s = String::new();
        match self {
            Instruction::Char(c) => {
                s.append("char ");
                push_char(&mut s, *c);
            },
            Instruction::Match => {
                s.append("match");
            },
            Instruction::Jump(t) => {
                s.append("jump ");
                push_padded(&mut s, *t);
            },
            Instruction::Split(a, b) => {
                s.append("split ");
                push_padded(&mut s, *a);
                s.append(", ");
                push_padded(&mut s, *b);
            },
        }
        proof {
            assert(s@ =~= self.spec_render());
        }
        s
    }
}

impl ParseError {
    /// The diagnostic line of this parse failure.
    pub open spec fn spec_message(self) -> Seq<char> {
        match self {
            ParseError::InvalidEscape(pos, c) => "ParseError: invalid escape: pos = "@ + dec_rep(
                pos as nat,
            ) + ", char = '"@ + seq![c] + "'"@,
            ParseError::InvalidRightParen(pos) => "ParseError: invalid right parenthesis: pos = "@
                + dec_rep(pos as nat),
            ParseError::NoPrev(pos) => "ParseError: no previous expression: pos = "@ + dec_rep(
                pos as nat,
            ),
            ParseError::NoRightParen => "ParseError: no right parenthesis"@,
            ParseError::Empty => "ParseError: empty expression"@,
        }
    }

    /// Renders this parse failure as its diagnostic line.
    pub fn message(&self) -> (s: String)
        ensures
            s@ == self.spec_message(),
    {
        let mut s = String::new();
        match self {
            ParseError::InvalidEscape(pos, c) => {
                s.append("ParseError: invalid escape: pos = ");
                push_decimal(&mut s, *pos);
                s.append(", char = '");
                push_char(&mut s, *c);
                s.append("'");
            },
            ParseError::InvalidRightParen(pos) => {
                s.append("ParseError: invalid right parenthesis: pos = ");
                push_decimal(&mut s, *pos);
            },
            ParseError::NoPrev(pos) => {
                s.append("ParseError: no previous expression: pos = ");
                push_decimal(&mut s, *pos);
            },
            ParseError::NoRightParen => {
                s.append("ParseError: no right parenthesis");
            },
            ParseError::Empty => {
                s.append("ParseError: empty expression");
            },
        }
        proof {
            assert(s@ =~= self.spec_message());
        }
        s
    }
}

impl EvalError {
    /// The diagnostic line of this run-time failure.  The label keeps the
    /// `CodeGenError` prefix that this error family has always shown.
    pub open spec fn spec_message(self) -> Seq<char> {
        match self {
            EvalError::PCOverFlow => "CodeGenError: PCOverFlow"@,
            EvalError::SPOverFlow => "CodeGenError: SPOverFlow"@,
            EvalError::InvalidPC => "CodeGenError: InvalidPC"@,
        }
    }

    /// Renders this run-time failure as its diagnostic line.
    pub fn message(&self) -> (s: String)
        ensures
            s@ == self.spec_message(),
    {
        let mut s = String::new();
        match self {
            EvalError::PCOverFlow => {
                s.append("CodeGenError: PCOverFlow");
            },
            EvalError::SPOverFlow => {
                s.append("CodeGenError: SPOverFlow");
            },
            EvalError::InvalidPC => {
                s.append("CodeGenError: InvalidPC");
            },
        }
        proof {
            assert(s@ =~= self.spec_message());
        }
        s
    }
}

impl CodeGenError {
    /// The diagnostic line of this code-generation failure.
    pub open spec fn spec_message(self) -> Seq<char> {
        "CodeGenError: PCOverFlow"@
    }

    /// Renders this code-generation failure as its diagnostic line.
    pub fn message(&self) -> (s: String)
        ensures
            s@ == self.spec_message(),
    {
        let mut s = String::new();
        s.append("CodeGenError: PCOverFlow");
        proof {
            assert(s@ =~= self.spec_message());
        }
        s
    }
}

} // verus!
