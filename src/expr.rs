use vstd::prelude::*;
use crate::token::{Literal, Token};

verus! {

/// An expression tree of the language: a closed set of forms.
pub enum Expr {
    Binary { left: Box<Expr>, operator: Token, right: Box<Expr> },
    Grouping { expression: Box<Expr> },
    Literal { value: Option<Literal> },
    Unary { operator: Token, right: Box<Expr> },
}

} // verus!
