use vstd::prelude::*;

use crate::expr::Expr;

verus! {

/// A statement; a program is a sequence of them.
#[derive(Debug)]
pub enum Stmt {
    Expression(Expr),
    Print(Expr),
    Var { name: String, initializer: Expr },
}

} // verus!
