use vstd::prelude::*;
use vstd::string::StringExecFns;

use crate::expr::Expr;
use crate::token::{Token, TokenType};

verus! {

/// Something with a fully parenthesized, prefix-notation text form.
pub trait ASTPrintable {
    /// The text form, as a character sequence.
    spec fn text(&self) -> Seq<char>;

    fn print(&self) -> (r: String)
        ensures
            r@ == self.text(),
    ;
}

/// The text form of a literal token.
pub open spec fn literal_text(t: Token) -> Seq<char> {
    match t.token_type {
        TokenType::Str(s) => "\""@ + s@ + "\""@,
        TokenType::EndOfFile => "EndOfFile"@,
        _ => t.lexeme@,
    }
}

/// The text form of an expression: `(op left right)`, `(op right)`,
/// `(group inner)`, `(if c then else e)`, literals and names as written.
pub open spec fn render(e: Expr) -> Seq<char>
    decreases e,
{
    match e {
        Expr::Binary { left, operator, right } => "("@ + operator.lexeme@ + " "@ + render(*left)
            + " "@ + render(*right) + ")"@,
        Expr::Conditional { condition, consequent, alternative } => "(if "@ + render(*condition)
            + " "@ + render(*consequent) + " else "@ + render(*alternative) + ")"@,
        Expr::Grouping { expression } => "(group "@ + render(*expression) + ")"@,
        Expr::Literal { value } => literal_text(value),
        Expr::Unary { operator, right } => "("@ + operator.lexeme@ + " "@ + render(*right) + ")"@,
        Expr::Variable { name } => name.lexeme@,
    }
}

impl Expr {
    /// The text form of this expression.
    pub fn render(&self) -> (r: String)
        ensures
            r@ == render(*self),
        decreases self,
    {
        match self {
            Expr::Binary { left, operator, right } => {
                let mut s = String::from_str("(");
                s.append(operator.lexeme.as_str());
                s.append(" ");
                s.append(left.render().as_str());
                s.append(" ");
                s.append(right.render().as_str());
                s.append(")");
                s
            },
            Expr::Conditional { condition, consequent, alternative } => {
                let mut s = String::from_str("(if ");
                s.append(condition.render().as_str());
                s.append(" ");
                s.append(consequent.render().as_str());
                s.append(" else ");
                s.append(alternative.render().as_str());
                s.append(")");
                s
            },
            Expr::Grouping { expression } => {
                let mut s = String::from_str("(group ");
                s.append(expression.render().as_str());
                s.append(")");
                s
            },
            Expr::Literal { value } => match &value.token_type {
                TokenType::Str(text) => {
                    let mut s = String::from_str("\"");
                    s.append(text.as_str());
                    s.append("\"");
                    s
                },
                TokenType::EndOfFile => String::from_str("EndOfFile"),
                _ => value.lexeme.clone(),
            },
            Expr::Unary { operator, right } => {
                let mut s = String::from_str("(");
                s.append(operator.lexeme.as_str());
                s.append(" ");
                s.append(right.render().as_str());
                s.append(")");
                s
            },
            Expr::Variable { name } => name.lexeme.clone(),
        }
    }
}

impl ASTPrintable for Expr {
    open spec fn text(&self) -> Seq<char> {
        render(*self)
    }

    fn print(&self) -> (r: String) {
        self.render()
    }
}

} // verus!
