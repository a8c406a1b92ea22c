//! The abstract syntax tree of a pattern, and its mathematical view.
use vstd::prelude::*;

verus! {

/// The abstract syntax tree of a pattern.
#[derive(Debug, PartialEq, Eq)]
pub enum AST {
    Char(char),
    Plus(Box<AST>),
    Star(Box<AST>),
    Question(Box<AST>),
    Or(Box<AST>, Box<AST>),
    Cat(Vec<AST>),
}

/// The mathematical shape of a parsed pattern: the `AST` seen through its
/// view, with child lists held as `Seq`.
#[verifier::ext_equal]
pub enum Re {
    Char(char),
    Plus(Box<Re>),
    Star(Box<Re>),
    Question(Box<Re>),
    Or(Box<Re>, Box<Re>),
    Cat(Seq<Re>),
}

pub open spec fn ast_view(a: AST) -> Re
    decreases a,
{
    match a {
        AST::Char(c) => Re::Char(c),
        AST::Plus(b) => Re::Plus(Box::new(ast_view(*b))),
        AST::Star(b) => Re::Star(Box::new(ast_view(*b))),
        AST::Question(b) => Re::Question(Box::new(ast_view(*b))),
        AST::Or(x, y) => Re::Or(Box::new(ast_view(*x)), Box::new(ast_view(*y))),
        AST::Cat(v) => Re::Cat(asts_view(v@)),
    }
}

pub open spec fn asts_view(s: Seq<AST>) -> Seq<Re>
    decreases s,
{
    if s.len() == 0 {
        Seq::empty()
    } else {
        asts_view(s.drop_last()).push(ast_view(s.last()))
    }
}

pub broadcast proof fn lemma_asts_view_len(s: Seq<AST>)
    ensures
        (#[trigger] asts_view(s)).len() == s.len(),
    decreases s,
{
    if s.len() > 0 {
        lemma_asts_view_len(s.drop_last());
    }
}

pub broadcast proof fn lemma_asts_view_index(s: Seq<AST>, i: int)
    requires
        0 <= i < s.len(),
    ensures
        #[trigger] asts_view(s)[i] == ast_view(s[i]),
    decreases s,
{
    lemma_asts_view_len(s);
    if s.len() > 0 {
        lemma_asts_view_len(s.drop_last());
        if i < s.len() - 1 {
            lemma_asts_view_index(s.drop_last(), i);
        }
    }
}

impl View for AST {
    type V = Re;

    open spec fn view(&self) -> Re {
        ast_view(*self)
    }
}

} // verus!
