use vstd::prelude::*;
use vstd::string::StringExecFns;

verus! {

/// The kinds of compile-time (lexical or syntax) errors.
#[derive(Debug, Clone)]
pub enum StaticErrorKind {
    UnexpectedCharacter,
    UnterminatedString,
    ExpectIdentifierAfterVar,
    ExpectEqualAfterName,
    ExpectSemicolonAfterDeclaration,
    ExpectSemicolonAfterValue,
    ExpectSemicolonAfterExpression,
    ExpectRightParen,
    ExpectColon,
    /// A token that cannot start an expression; carries its lexeme.
    UnexpectedToken(String),
}

/// One compile-time diagnostic: where it was found and what it is.
#[derive(Debug, Clone)]
pub struct Report {
    pub line: u32,
    pub kind: StaticErrorKind,
}

/// The text of a compile-time diagnostic's message.
pub open spec fn static_message(kind: StaticErrorKind) -> Seq<char> {
    match kind {
        StaticErrorKind::UnexpectedCharacter => "Unexpected character."@,
        StaticErrorKind::UnterminatedString => "Unterminated string."@,
        StaticErrorKind::ExpectIdentifierAfterVar => "Expect identifier after 'var'."@,
        StaticErrorKind::ExpectEqualAfterName => "Expect '=' after variable name."@,
        StaticErrorKind::ExpectSemicolonAfterDeclaration => "Expect ';' after variable declaration."@,
        StaticErrorKind::ExpectSemicolonAfterValue => "Expect ';' after value."@,
        StaticErrorKind::ExpectSemicolonAfterExpression => "Expect ';' after expression."@,
        StaticErrorKind::ExpectRightParen => "Expect ')' after expression."@,
        StaticErrorKind::ExpectColon => "Expect ':' after then branch of conditional expression."@,
        StaticErrorKind::UnexpectedToken(s) => "Unexpected token: "@ + s@ + "."@,
    }
}

impl Report {
    /// The human-readable message of this diagnostic (without its line).
    pub fn message(&self) -> (r: String)
        ensures
            r@ == static_message(self.kind),
    {
        match &self.kind {
            StaticErrorKind::UnexpectedCharacter => String::from_str("Unexpected character."),
            StaticErrorKind::UnterminatedString => String::from_str("Unterminated string."),
            StaticErrorKind::ExpectIdentifierAfterVar => String::from_str(
                "Expect identifier after 'var'.",
            ),
            StaticErrorKind::ExpectEqualAfterName => String::from_str(
                "Expect '=' after variable name.",
            ),
            StaticErrorKind::ExpectSemicolonAfterDeclaration => String::from_str(
                "Expect ';' after variable declaration.",
            ),
            StaticErrorKind::ExpectSemicolonAfterValue => String::from_str(
                "Expect ';' after value.",
            ),
            StaticErrorKind::ExpectSemicolonAfterExpression => String::from_str(
                "Expect ';' after expression.",
            ),
            StaticErrorKind::ExpectRightParen => String::from_str("Expect ')' after expression."),
            StaticErrorKind::ExpectColon => String::from_str(
                "Expect ':' after then branch of conditional expression.",
            ),
            StaticErrorKind::UnexpectedToken(s) => {
                let mut m = String::from_str("Unexpected token: ");
                m.append(s.as_str());
                m.append(".");
                m
            },
        }
    }
}

/// The kinds of runtime errors.
#[derive(Debug, Clone, Copy, PartialEq, Eq, Structural)]
pub enum RuntimeErrorType {
    OperandMustBeNumber,
    OperandMustBeNumberOrString,
    UndefinedVariable,
    InvalidLiteral,
    InvalidUnaryOperator,
    InvalidBinaryOperator,
}

/// A runtime error: the line and lexeme of the token it points at, and its kind.
#[derive(Debug, Clone)]
pub struct RuntimeError {
    pub line: u32,
    pub cause: String,
    pub error_type: RuntimeErrorType,
}

/// What a runtime error of this kind says, before the cause.
pub open spec fn runtime_message(t: RuntimeErrorType) -> Seq<char> {
    match t {
        RuntimeErrorType::OperandMustBeNumber => "Operand must be a number: "@,
        RuntimeErrorType::OperandMustBeNumberOrString => "Operands must both be either numbers or strings: "@,
        RuntimeErrorType::UndefinedVariable => "Undefined variable: "@,
        RuntimeErrorType::InvalidLiteral => "Invalid literal: "@,
        RuntimeErrorType::InvalidUnaryOperator => "Invalid unary operator: "@,
        RuntimeErrorType::InvalidBinaryOperator => "Invalid binary operator: "@,
    }
}

impl RuntimeError {
    /// The human-readable message of this error (without its line): what
    /// went wrong, then the lexeme it points at.
    pub fn description(&self) -> (r: String)
        ensures
            r@ == runtime_message(self.error_type) + self.cause@,
    {
        let mut m = match self.error_type {
            RuntimeErrorType::OperandMustBeNumber => String::from_str("Operand must be a number: "),
            RuntimeErrorType::OperandMustBeNumberOrString => String::from_str(
                "Operands must both be either numbers or strings: ",
            ),
            RuntimeErrorType::UndefinedVariable => String::from_str("Undefined variable: "),
            RuntimeErrorType::InvalidLiteral => String::from_str("Invalid literal: "),
            RuntimeErrorType::InvalidUnaryOperator => String::from_str("Invalid unary operator: "),
            RuntimeErrorType::InvalidBinaryOperator => String::from_str(
                "Invalid binary operator: ",
            ),
        };
        m.append(self.cause.as_str());
        m
    }

    pub fn new(line: u32, cause: String, error_type: RuntimeErrorType) -> (r: Self)
        ensures
            r.line == line,
            r.cause == cause,
            r.error_type == error_type,
    {
        RuntimeError { line, cause, error_type }
    }
}

/// The diagnostics of one run: every compile-time report and every runtime
/// error, in the order they were found. Nothing is ever removed, so the
/// "an error was seen" flags derived from them are sticky.
pub struct Diagnostics {
    reports: Vec<Report>,
    runtime_errors: Vec<RuntimeError>,
}

impl Diagnostics {
    /// The compile-time reports so far, in order.
    pub closed spec fn spec_reports(&self) -> Seq<Report> {
        self.reports@
    }

    /// The runtime errors so far, in order.
    pub closed spec fn spec_runtime_errors(&self) -> Seq<RuntimeError> {
        self.runtime_errors@
    }

    pub fn new() -> (r: Self)
        ensures
            r.spec_reports().len() == 0,
            r.spec_runtime_errors().len() == 0,
    {
        Diagnostics { reports: Vec::new(), runtime_errors: Vec::new() }
    }

    pub fn reports(&self) -> (r: &Vec<Report>)
        ensures
            r@ == self.spec_reports(),
    {
        &self.reports
    }

    pub fn runtime_errors(&self) -> (r: &Vec<RuntimeError>)
        ensures
            r@ == self.spec_runtime_errors(),
    {
        &self.runtime_errors
    }
}

/// Whether a lexical or syntax error has been reported.
pub fn had_error(d: &Diagnostics) -> (r: bool)
    ensures
        r == (d.spec_reports().len() > 0),
{
    d.reports.len() > 0
}

/// Whether a runtime error has been reported.
pub fn had_runtime_error(d: &Diagnostics) -> (r: bool)
    ensures
        r == (d.spec_runtime_errors().len() > 0),
{
    d.runtime_errors.len() > 0
}

/// Records a lexical or syntax error.
pub fn error(d: &mut Diagnostics, line: u32, kind: StaticErrorKind)
    ensures
        final(d).spec_reports() == old(d).spec_reports().push(Report { line, kind }),
        final(d).spec_runtime_errors() == old(d).spec_runtime_errors(),
{
    d.reports.push(Report { line, kind });
}

/// Records a runtime error.
pub fn runtime_error(d: &mut Diagnostics, err: RuntimeError)
    ensures
        final(d).spec_runtime_errors() == old(d).spec_runtime_errors().push(err),
        final(d).spec_reports() == old(d).spec_reports(),
{
    d.runtime_errors.push(err);
}

} // verus!
