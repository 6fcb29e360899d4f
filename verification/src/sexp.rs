//! The symbolic-expression boundary type: one parsed top-level request, as
//! handed in by the surrounding reader.
//!
//! The machine itself has no floating-point or string values; a float or
//! string literal is carried only far enough to be rejected with a dedicated
//! error, so the `Float` variant records nothing but its presence.

use vstd::prelude::*;

verus! {

/// A generic symbolic expression: a list of children or an atom.
#[derive(Debug, PartialEq)]
pub enum SExp {
    List(Vec<SExp>),
    Float,
    Integer(i128),
    Str(String),
    Symbol(String),
}

/// The mathematical shape of an [`SExp`]: sequences in place of vectors,
/// sequences of characters in place of strings.
pub enum SExpModel {
    List(Seq<SExpModel>),
    Float,
    Integer(i128),
    Str(Seq<char>),
    Symbol(Seq<char>),
}

pub open spec fn sexp_view(e: SExp) -> SExpModel
    decreases e,
{
    match e {
        SExp::List(exprs) => SExpModel::List(sexp_seq_view(exprs@)),
        SExp::Float => SExpModel::Float,
        SExp::Integer(value) => SExpModel::Integer(value),
        SExp::Str(content) => SExpModel::Str(content@),
        SExp::Symbol(name) => SExpModel::Symbol(name@),
    }
}

pub open spec fn sexp_seq_view(exprs: Seq<SExp>) -> Seq<SExpModel>
    decreases exprs,
{
    if exprs.len() == 0 {
        Seq::empty()
    } else {
        sexp_seq_view(exprs.drop_last()).push(sexp_view(exprs.last()))
    }
}

impl View for SExp {
    type V = SExpModel;

    open spec fn view(&self) -> SExpModel {
        sexp_view(*self)
    }
}

impl SExp {
    /// The symbol's name, when the expression is a symbol.
    pub fn into_symbol(self) -> (r: Option<String>)
        ensures
            match self@ {
                SExpModel::Symbol(name) => r matches Some(s) && s@ == name,
                _ => r is None,
            },
    {
        match self {
            SExp::Symbol(name) => Some(name),
            _ => None,
        }
    }

    /// The integer's value, when the expression is an integer literal.
    pub fn into_integer(self) -> (r: Option<i128>)
        ensures
            match self@ {
                SExpModel::Integer(value) => r == Some(value),
                _ => r is None,
            },
    {
        match self {
            SExp::Integer(value) => Some(value),
            _ => None,
        }
    }

    /// Whether the expression is a list rather than an atom.
    pub fn is_list(&self) -> (r: bool)
        ensures
            r == (self@ is List),
    {
        match self {
            SExp::List(_) => true,
            _ => false,
        }
    }
}

} // verus!
