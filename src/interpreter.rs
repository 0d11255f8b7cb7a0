use vstd::prelude::*;
use vstd::string::StringExecFns;

use crate::environment::Environment;
use crate::errors::{Diagnostics, RuntimeError, RuntimeErrorType};
use crate::expr::Expr;
use crate::lox_value::{truthy, LoxValue, ValueView};
use crate::stmt::Stmt;
use crate::token::{Token, TokenType};

verus! {

// ---------------------------------------------------------------------------
// Numbers. The evaluator decides types, errors and control; the arithmetic on
// numbers (IEEE-754 doubles, held here as bit patterns) is supplied by the
// embedding program as a function from request to value.
/// A binary operation on two numbers.
#[derive(Debug, Clone, Copy, PartialEq, Eq, Structural)]
pub enum NumberOp {
    Add,
    Subtract,
    Multiply,
    Divide,
    Greater,
    GreaterEqual,
    Less,
    LessEqual,
    Equal,
    NotEqual,
}

/// What the evaluator asks of the number arithmetic.
#[derive(Debug, Clone)]
pub enum NumberRequest {
    /// The value of a number literal, given its text.
    Parse(String),
    /// The negation of a number.
    Negate(u64),
    /// A binary operation on two numbers.
    Binary(NumberOp, u64, u64),
}

/// Whether `v` is the kind of value a request asks for: a number for a
/// literal, a negation or arithmetic, a Boolean for a comparison.
pub open spec fn reply_fits(req: NumberRequest, v: ValueView) -> bool {
    match req {
        NumberRequest::Binary(op, _, _) => if op == NumberOp::Add || op == NumberOp::Subtract
            || op == NumberOp::Multiply || op == NumberOp::Divide {
            v is Number
        } else {
            v is Bool
        },
        _ => v is Number,
    }
}

/// A value of the kind `req` asks for; it stands in for the reply to a
/// request on which `host` never returns.
pub open spec fn unanswered(req: NumberRequest) -> ValueView {
    match req {
        NumberRequest::Binary(op, _, _) => if op == NumberOp::Add || op == NumberOp::Subtract
            || op == NumberOp::Multiply || op == NumberOp::Divide {
            ValueView::Number(0)
        } else {
            ValueView::Bool(false)
        },
        _ => ValueView::Number(0),
    }
}

/// The value that `host` gives for `req`.
pub open spec fn reply<F: Fn(NumberRequest) -> LoxValue>(host: F, req: NumberRequest) -> ValueView {
    if exists|v: LoxValue| call_ensures(host, (req,), v) {
        (choose|v: LoxValue| call_ensures(host, (req,), v))@
    } else {
        unanswered(req)
    }
}

/// `host` accepts every request, gives one value for each, and that value
/// is of the kind the request asks for.
pub open spec fn host_ready<F: Fn(NumberRequest) -> LoxValue>(host: F) -> bool {
    &&& forall|req: NumberRequest| call_requires(host, (req,))
    &&& forall|req: NumberRequest, v: LoxValue| #[trigger]
        call_ensures(host, (req,), v) ==> v@ == reply(host, req) && reply_fits(req, v@)
}

/// The number arithmetic answers each request with a value of the kind it
/// asks for.
pub proof fn lemma_reply_fits<F: Fn(NumberRequest) -> LoxValue>(host: F, req: NumberRequest)
    requires
        host_ready(host),
    ensures
        reply_fits(req, reply(host, req)),
{
    if exists|v: LoxValue| call_ensures(host, (req,), v) {
        let v = choose|v: LoxValue| call_ensures(host, (req,), v);
        assert(reply_fits(req, v@));
    }
}

/// A runtime error pointing at `t`.
pub open spec fn error_at(t: Token, error_type: RuntimeErrorType) -> RuntimeError {
    RuntimeError { line: t.line, cause: t.lexeme, error_type }
}

/// The number operation a binary operator token stands for, if any.
pub open spec fn number_op(t: TokenType) -> Option<NumberOp> {
    match t {
        TokenType::Plus => Some(NumberOp::Add),
        TokenType::Minus => Some(NumberOp::Subtract),
        TokenType::Star => Some(NumberOp::Multiply),
        TokenType::Slash => Some(NumberOp::Divide),
        TokenType::Greater => Some(NumberOp::Greater),
        TokenType::GreaterEqual => Some(NumberOp::GreaterEqual),
        TokenType::Less => Some(NumberOp::Less),
        TokenType::LessEqual => Some(NumberOp::LessEqual),
        TokenType::EqualEqual => Some(NumberOp::Equal),
        TokenType::BangEqual => Some(NumberOp::NotEqual),
        _ => None,
    }
}

/// The value of a binary operator applied to two values. Division by zero
/// is not trapped: it gives whatever the number arithmetic gives (infinity
/// or NaN for IEEE-754 doubles).
pub open spec fn binary_value<F: Fn(NumberRequest) -> LoxValue>(
    host: F,
    operator: Token,
    l: ValueView,
    r: ValueView,
) -> Result<ValueView, RuntimeError> {
    match number_op(operator.token_type) {
        None => Err(error_at(operator, RuntimeErrorType::InvalidBinaryOperator)),
        Some(op) => match (l, r) {
            (ValueView::Number(a), ValueView::Number(b)) => Ok(
                reply(host, NumberRequest::Binary(op, a, b)),
            ),
            _ => if op == NumberOp::Equal {
                Ok(ValueView::Bool(l == r))
            } else if op == NumberOp::NotEqual {
                Ok(ValueView::Bool(l != r))
            } else if op == NumberOp::Add {
                match (l, r) {
                    (ValueView::Str(a), ValueView::Str(b)) => Ok(ValueView::Str(a + b)),
                    _ => Err(error_at(operator, RuntimeErrorType::OperandMustBeNumberOrString)),
                }
            } else {
                Err(error_at(operator, RuntimeErrorType::OperandMustBeNumber))
            },
        },
    }
}

/// The value of an expression in the bindings `env`.
pub open spec fn eval<F: Fn(NumberRequest) -> LoxValue>(
    host: F,
    e: Expr,
    env: Map<Seq<char>, ValueView>,
) -> Result<ValueView, RuntimeError>
    decreases e,
{
    match e {
        Expr::Literal { value } => match value.token_type {
            TokenType::Number(text) => Ok(reply(host, NumberRequest::Parse(text))),
            TokenType::Str(s) => Ok(ValueView::Str(s@)),
            TokenType::True => Ok(ValueView::Bool(true)),
            TokenType::False => Ok(ValueView::Bool(false)),
            TokenType::Nil => Ok(ValueView::Nil),
            _ => Err(error_at(value, RuntimeErrorType::InvalidLiteral)),
        },
        Expr::Grouping { expression } => eval(host, *expression, env),
        Expr::Variable { name } => if env.contains_key(name.lexeme@) {
            Ok(env[name.lexeme@])
        } else {
            Err(error_at(name, RuntimeErrorType::UndefinedVariable))
        },
        Expr::Unary { operator, right } => match eval(host, *right, env) {
            Err(x) => Err(x),
            Ok(v) => match operator.token_type {
                TokenType::Minus => match v {
                    ValueView::Number(n) => Ok(reply(host, NumberRequest::Negate(n))),
                    _ => Err(error_at(operator, RuntimeErrorType::OperandMustBeNumber)),
                },
                TokenType::Bang => Ok(ValueView::Bool(!truthy(v))),
                _ => Err(error_at(operator, RuntimeErrorType::InvalidUnaryOperator)),
            },
        },
        Expr::Binary { left, operator, right } => match eval(host, *left, env) {
            Err(x) => Err(x),
            Ok(l) => match eval(host, *right, env) {
                Err(x) => Err(x),
                Ok(r) => binary_value(host, operator, l, r),
            },
        },
        Expr::Conditional { condition, consequent, alternative } => match eval(
            host,
            *condition,
            env,
        ) {
            Err(x) => Err(x),
            Ok(c) => if truthy(c) {
                eval(host, *consequent, env)
            } else {
                eval(host, *alternative, env)
            },
        },
    }
}

/// Truthiness under `!`: the negation of a number or string literal (zero
/// and the empty string included) or of `true` is false; of `nil` and
/// `false` it is true.
pub proof fn lemma_negated_literal<F: Fn(NumberRequest) -> LoxValue>(
    host: F,
    bang: Token,
    lit: Token,
    env: Map<Seq<char>, ValueView>,
)
    requires
        host_ready(host),
        bang.token_type is Bang,
    ensures
        ({
            let e = Expr::Unary { operator: bang, right: Box::new(Expr::Literal { value: lit }) };
            &&& (lit.token_type is Number || lit.token_type is Str || lit.token_type is True)
                ==> eval(host, e, env) == Ok::<ValueView, RuntimeError>(ValueView::Bool(false))
            &&& (lit.token_type is Nil || lit.token_type is False) ==> eval(host, e, env) == Ok::<
                ValueView,
                RuntimeError,
            >(ValueView::Bool(true))
        }),
{
    let e = Expr::Unary { operator: bang, right: Box::new(Expr::Literal { value: lit }) };
    let inner = eval(host, Expr::Literal { value: lit }, env);
    if let TokenType::Number(text) = lit.token_type {
        lemma_reply_fits(host, NumberRequest::Parse(text));
    }
    assert(eval(host, e, env) == match inner {
        Ok(v) => Ok::<ValueView, RuntimeError>(ValueView::Bool(!truthy(v))),
        Err(x) => Err(x),
    });
}

/// The operand rules: a string minus a number fails with
/// OperandMustBeNumber; a number plus a string fails with
/// OperandMustBeNumberOrString; a number equals no string, without error.
pub proof fn lemma_operand_types<F: Fn(NumberRequest) -> LoxValue>(
    host: F,
    text: Token,
    number: Token,
    op: Token,
    env: Map<Seq<char>, ValueView>,
)
    requires
        host_ready(host),
        text.token_type is Str,
        number.token_type is Number,
    ensures
        op.token_type is Minus ==> eval(
            host,
            Expr::Binary {
                left: Box::new(Expr::Literal { value: text }),
                operator: op,
                right: Box::new(Expr::Literal { value: number }),
            },
            env,
        ) == Err::<ValueView, RuntimeError>(error_at(op, RuntimeErrorType::OperandMustBeNumber)),
        op.token_type is Plus ==> eval(
            host,
            Expr::Binary {
                left: Box::new(Expr::Literal { value: number }),
                operator: op,
                right: Box::new(Expr::Literal { value: text }),
            },
            env,
        ) == Err::<ValueView, RuntimeError>(
            error_at(op, RuntimeErrorType::OperandMustBeNumberOrString),
        ),
        op.token_type is EqualEqual ==> eval(
            host,
            Expr::Binary {
                left: Box::new(Expr::Literal { value: number }),
                operator: op,
                right: Box::new(Expr::Literal { value: text }),
            },
            env,
        ) == Ok::<ValueView, RuntimeError>(ValueView::Bool(false)),
{
    if let TokenType::Number(digits) = number.token_type {
        lemma_reply_fits(host, NumberRequest::Parse(digits));
        let n = eval(host, Expr::Literal { value: number }, env);
        let t = eval(host, Expr::Literal { value: text }, env);
        assert(n == Ok::<ValueView, RuntimeError>(reply(host, NumberRequest::Parse(digits))));
        assert(t is Ok && t->Ok_0 is Str);
    }
}

/// The view of an evaluation result.
pub open spec fn outcome(r: Result<LoxValue, RuntimeError>) -> Result<ValueView, RuntimeError> {
    match r {
        Ok(v) => Ok(v@),
        Err(x) => Err(x),
    }
}

fn error_at_token(t: &Token, error_type: RuntimeErrorType) -> (r: RuntimeError)
    ensures
        r == error_at(*t, error_type),
{
    RuntimeError::new(t.line, t.lexeme.clone(), error_type)
}

fn ask<F: Fn(NumberRequest) -> LoxValue>(host: &F, req: NumberRequest) -> (r: LoxValue)
    requires
        host_ready(*host),
    ensures
        r@ == reply(*host, req),
{
    let ghost q = req;
    let v = host(req);
    assert(call_ensures(*host, (q,), v));
    v
}

fn apply_binary<F: Fn(NumberRequest) -> LoxValue>(
    host: &F,
    operator: &Token,
    l: LoxValue,
    r: LoxValue,
) -> (res: Result<LoxValue, RuntimeError>)
    requires
        host_ready(*host),
    ensures
        outcome(res) == binary_value(*host, *operator, l@, r@),
{
    let op = match operator.token_type {
        TokenType::Plus => NumberOp::Add,
        TokenType::Minus => NumberOp::Subtract,
        TokenType::Star => NumberOp::Multiply,
        TokenType::Slash => NumberOp::Divide,
        TokenType::Greater => NumberOp::Greater,
        TokenType::GreaterEqual => NumberOp::GreaterEqual,
        TokenType::Less => NumberOp::Less,
        TokenType::LessEqual => NumberOp::LessEqual,
        TokenType::EqualEqual => NumberOp::Equal,
        TokenType::BangEqual => NumberOp::NotEqual,
        _ => return Err(error_at_token(operator, RuntimeErrorType::InvalidBinaryOperator)),
    };
    match (l, r) {
        (LoxValue::Number(a), LoxValue::Number(b)) => Ok(
            ask(host, NumberRequest::Binary(op, a, b)),
        ),
        (l, r) => {
            if op == NumberOp::Equal || op == NumberOp::NotEqual {
                let same = match (&l, &r) {
                    (LoxValue::Str(a), LoxValue::Str(b)) => *a == *b,
                    (LoxValue::Bool(a), LoxValue::Bool(b)) => *a == *b,
                    (LoxValue::Nil, LoxValue::Nil) => true,
                    _ => false,
                };
                if op == NumberOp::Equal {
                    Ok(LoxValue::Bool(same))
                } else {
                    Ok(LoxValue::Bool(!same))
                }
            } else if op == NumberOp::Add {
                match (l, r) {
                    (LoxValue::Str(a), LoxValue::Str(b)) => {
                        let mut s = a;
                        s.append(b.as_str());
                        Ok(LoxValue::Str(s))
                    },
                    _ => Err(
                        error_at_token(operator, RuntimeErrorType::OperandMustBeNumberOrString),
                    ),
                }
            } else {
                Err(error_at_token(operator, RuntimeErrorType::OperandMustBeNumber))
            }
        },
    }
}

impl Expr {
    /// Evaluates this expression in `env`, with `host` doing the number
    /// arithmetic.
    pub fn evaluate<F: Fn(NumberRequest) -> LoxValue>(&self, env: &Environment, host: &F) -> (r:
        Result<LoxValue, RuntimeError>)
        requires
            host_ready(*host),
        ensures
            outcome(r) == eval(*host, *self, env@),
        decreases self,
    {
        match self {
            Expr::Literal { value } => match &value.token_type {
                TokenType::Number(text) => Ok(ask(host, NumberRequest::Parse(text.clone()))),
                TokenType::Str(s) => Ok(LoxValue::Str(s.clone())),
                TokenType::True => Ok(LoxValue::Bool(true)),
                TokenType::False => Ok(LoxValue::Bool(false)),
                TokenType::Nil => Ok(LoxValue::Nil),
                _ => Err(error_at_token(value, RuntimeErrorType::InvalidLiteral)),
            },
            Expr::Grouping { expression } => expression.evaluate(env, host),
            Expr::Variable { name } => match env.get(name) {
                Ok(v) => Ok(v),
                Err(_) => Err(error_at_token(name, RuntimeErrorType::UndefinedVariable)),
            },
            Expr::Unary { operator, right } => {
                let v = match right.evaluate(env, host) {
                    Ok(v) => v,
                    Err(x) => return Err(x),
                };
                match &operator.token_type {
                    TokenType::Minus => match v {
                        LoxValue::Number(n) => Ok(ask(host, NumberRequest::Negate(n))),
                        _ => Err(error_at_token(operator, RuntimeErrorType::OperandMustBeNumber)),
                    },
                    TokenType::Bang => Ok(LoxValue::Bool(!v.is_truthy())),
                    _ => Err(error_at_token(operator, RuntimeErrorType::InvalidUnaryOperator)),
                }
            },
            Expr::Binary { left, operator, right } => {
                let l = match left.evaluate(env, host) {
                    Ok(v) => v,
                    Err(x) => return Err(x),
                };
                let r = match right.evaluate(env, host) {
                    Ok(v) => v,
                    Err(x) => return Err(x),
                };
                apply_binary(host, operator, l, r)
            },
            Expr::Conditional { condition, consequent, alternative } => {
                let c = match condition.evaluate(env, host) {
                    Ok(v) => v,
                    Err(x) => return Err(x),
                };
                if c.is_truthy() {
                    consequent.evaluate(env, host)
                } else {
                    alternative.evaluate(env, host)
                }
            },
        }
    }
}


/// The effect of a statement: the bindings after it and the values it
/// printed, or the runtime error that stopped it.
pub open spec fn exec_stmt<F: Fn(NumberRequest) -> LoxValue>(
    host: F,
    s: Stmt,
    env: Map<Seq<char>, ValueView>,
) -> Result<(Map<Seq<char>, ValueView>, Seq<ValueView>), RuntimeError> {
    match s {
        Stmt::Expression(e) => match eval(host, e, env) {
            Err(x) => Err(x),
            Ok(_) => Ok((env, Seq::empty())),
        },
        Stmt::Print(e) => match eval(host, e, env) {
            Err(x) => Err(x),
            Ok(v) => Ok((env, seq![v])),
        },
        Stmt::Var { name, initializer } => match eval(host, initializer, env) {
            Err(x) => Err(x),
            Ok(v) => Ok((env.insert(name@, v), Seq::empty())),
        },
    }
}

/// A program run from `env`: the final bindings, everything printed, and the
/// runtime error that stopped it, if one did. A runtime error ends the run.
pub open spec fn run_program<F: Fn(NumberRequest) -> LoxValue>(
    host: F,
    stmts: Seq<Stmt>,
    env: Map<Seq<char>, ValueView>,
) -> (Map<Seq<char>, ValueView>, Seq<ValueView>, Option<RuntimeError>)
    decreases stmts.len(),
{
    if stmts.len() == 0 {
        (env, Seq::empty(), None)
    } else {
        match exec_stmt(host, stmts[0], env) {
            Err(x) => (env, Seq::empty(), Some(x)),
            Ok((next, printed)) => {
                let rest = run_program(host, stmts.drop_first(), next);
                (rest.0, printed + rest.1, rest.2)
            },
        }
    }
}

impl Stmt {
    /// Runs this statement: evaluates its expression, then binds it (`var`),
    /// prints it (`print`, onto `out`) or drops it.
    pub fn interpret<F: Fn(NumberRequest) -> LoxValue>(
        &self,
        env: &mut Environment,
        host: &F,
        out: &mut Vec<LoxValue>,
    ) -> (r: Result<(), RuntimeError>)
        requires
            host_ready(*host),
            old(env).wf(),
        ensures
            final(env).wf(),
            match exec_stmt(*host, *self, old(env)@) {
                Ok((next, printed)) => {
                    &&& r is Ok
                    &&& final(env)@ == next
                    &&& final(out)@.map_values(|v: LoxValue| v@) == old(out)@.map_values(
                        |v: LoxValue| v@,
                    ) + printed
                },
                Err(x) => {
                    &&& r == Err::<(), RuntimeError>(x)
                    &&& final(env)@ == old(env)@
                    &&& final(out)@ == old(out)@
                },
            },
    {
        match self {
            Stmt::Expression(e) => {
                match e.evaluate(env, host) {
                    Ok(_) => {},
                    Err(x) => return Err(x),
                }
                assert(out@.map_values(|v: LoxValue| v@) =~= out@.map_values(|v: LoxValue| v@)
                    + Seq::<ValueView>::empty());
                Ok(())
            },
            Stmt::Print(e) => {
                let v = match e.evaluate(env, host) {
                    Ok(v) => v,
                    Err(x) => return Err(x),
                };
                let ghost before = out@.map_values(|v: LoxValue| v@);
                out.push(v);
                assert(out@.map_values(|v: LoxValue| v@) =~= before + seq![v@]);
                Ok(())
            },
            Stmt::Var { name, initializer } => {
                let v = match initializer.evaluate(env, host) {
                    Ok(v) => v,
                    Err(x) => return Err(x),
                };
                env.define(name.clone(), v);
                assert(out@.map_values(|v: LoxValue| v@) =~= out@.map_values(|v: LoxValue| v@)
                    + Seq::<ValueView>::empty());
                Ok(())
            },
        }
    }
}

/// Runs a program in `env`, with `host` doing the number arithmetic: the
/// values printed, in order. A runtime error stops the run and is recorded
/// in `diag`.
pub fn interpret<F: Fn(NumberRequest) -> LoxValue>(
    statements: &Vec<Stmt>,
    env: &mut Environment,
    host: &F,
    diag: &mut Diagnostics,
) -> (printed: Vec<LoxValue>)
    requires
        host_ready(*host),
        old(env).wf(),
    ensures
        final(env).wf(),
        ({
            let run = run_program(*host, statements@, old(env)@);
            &&& final(env)@ == run.0
            &&& printed@.map_values(|v: LoxValue| v@) == run.1
            &&& final(diag).spec_runtime_errors() == match run.2 {
                Some(x) => old(diag).spec_runtime_errors().push(x),
                None => old(diag).spec_runtime_errors(),
            }
            &&& final(diag).spec_reports() == old(diag).spec_reports()
        }),
{
    let ghost all = statements@;
    let ghost whole = run_program(*host, all, env@);
    let mut out: Vec<LoxValue> = Vec::new();
    let mut i: usize = 0;
    assert(all.skip(0) =~= all);
    assert(out@.map_values(|v: LoxValue| v@) + whole.1 =~= whole.1);
    while i < statements.len()
        invariant
            host_ready(*host),
            env.wf(),
            all == statements@,
            i <= all.len(),
            whole == run_program(*host, all, old(env)@),
            whole.0 == run_program(*host, all.skip(i as int), env@).0,
            whole.2 == run_program(*host, all.skip(i as int), env@).2,
            whole.1 == out@.map_values(|v: LoxValue| v@) + run_program(
                *host,
                all.skip(i as int),
                env@,
            ).1,
            diag.spec_runtime_errors() == old(diag).spec_runtime_errors(),
            diag.spec_reports() == old(diag).spec_reports(),
        decreases all.len() - i,
    {
        assert(all.skip(i as int).drop_first() =~= all.skip(i + 1));
        assert(all.skip(i as int)[0] == all[i as int]);
        let ghost before = out@.map_values(|v: LoxValue| v@);
        let ghost env_before = env@;
        match statements[i].interpret(env, host, &mut out) {
            Ok(()) => {
                let ghost step = exec_stmt(*host, all[i as int], env_before);
                let ghost rest = run_program(*host, all.skip(i + 1), env@);
                assert(before + (step->Ok_0.1 + rest.1) =~= (before + step->Ok_0.1) + rest.1);
            },
            Err(x) => {
                crate::errors::runtime_error(diag, x);
                assert(whole.1 =~= out@.map_values(|v: LoxValue| v@));
                return out;
            },
        }
        i += 1;
    }
    assert(all.skip(i as int) =~= Seq::<Stmt>::empty());
    assert(whole.1 =~= out@.map_values(|v: LoxValue| v@));
    out
}

} // verus!
