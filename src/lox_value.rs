use vstd::prelude::*;
use vstd::string::StringExecFns;

verus! {

/// A runtime value. A number is held as the bit pattern of an IEEE-754
/// double; the arithmetic on numbers is supplied by the embedding program
/// (see `interpreter::NumberRequest`).
#[derive(Debug, Clone)]
pub enum LoxValue {
    Number(u64),
    Str(String),
    Bool(bool),
    Nil,
}

/// The mathematical view of a runtime value.
pub enum ValueView {
    Number(u64),
    Str(Seq<char>),
    Bool(bool),
    Nil,
}

impl View for LoxValue {
    type V = ValueView;

    open spec fn view(&self) -> ValueView {
        match self {
            LoxValue::Number(n) => ValueView::Number(*n),
            LoxValue::Str(s) => ValueView::Str(s@),
            LoxValue::Bool(b) => ValueView::Bool(*b),
            LoxValue::Nil => ValueView::Nil,
        }
    }
}

/// Truthiness: `false` and `nil` are falsy, every other value is truthy.
pub open spec fn truthy(v: ValueView) -> bool {
    match v {
        ValueView::Bool(b) => b,
        ValueView::Nil => false,
        _ => true,
    }
}

/// The display text of a value that is not a number; a number's text is
/// the embedding program's float formatting.
pub open spec fn display_text(v: ValueView) -> Option<Seq<char>> {
    match v {
        ValueView::Number(_) => None,
        ValueView::Str(s) => Some(s),
        ValueView::Bool(b) => Some(
            if b {
                "true"@
            } else {
                "false"@
            },
        ),
        ValueView::Nil => Some("nil"@),
    }
}

impl LoxValue {
    /// A copy of this value.
    pub fn duplicate(&self) -> (r: LoxValue)
        ensures
            r == *self,
    {
        match self {
            LoxValue::Number(n) => LoxValue::Number(*n),
            LoxValue::Str(s) => LoxValue::Str(s.clone()),
            LoxValue::Bool(b) => LoxValue::Bool(*b),
            LoxValue::Nil => LoxValue::Nil,
        }
    }

    pub fn is_truthy(&self) -> (r: bool)
        ensures
            r == truthy(self@),
    {
        match self {
            LoxValue::Bool(b) => *b,
            LoxValue::Nil => false,
            _ => true,
        }
    }

    /// The text `print` writes for this value, except for numbers.
    pub fn display(&self) -> (r: Option<String>)
        ensures
            r is Some == display_text(self@) is Some,
            r is Some ==> r->0@ == display_text(self@)->0,
    {
        match self {
            LoxValue::Number(_) => None,
            LoxValue::Str(s) => Some(s.clone()),
            LoxValue::Bool(b) => Some(
                if *b {
                    String::from_str("true")
                } else {
                    String::from_str("false")
                },
            ),
            LoxValue::Nil => Some(String::from_str("nil")),
        }
    }
}

} // verus!
