use vstd::prelude::*;

use crate::token::Token;

verus! {

/// An expression node; each node owns its sub-expressions.
#[derive(Debug)]
pub enum Expr {
    Binary { left: Box<Expr>, operator: Token, right: Box<Expr> },
    Conditional { condition: Box<Expr>, consequent: Box<Expr>, alternative: Box<Expr> },
    Grouping { expression: Box<Expr> },
    Literal { value: Token },
    Unary { operator: Token, right: Box<Expr> },
    Variable { name: Token },
}

} // verus!
