use vstd::prelude::*;

use crate::errors::{Diagnostics, Report, StaticErrorKind};
use crate::expr::Expr;
use crate::stmt::Stmt;
use crate::token::{Token, TokenKind, TokenType};

verus! {

// ---------------------------------------------------------------------------
// The grammar, as spec functions over the token sequence. Each function parses
// from position `p` and gives either what it parsed and how many tokens it
// took, or the error it met and how many tokens it had taken by then.
/// The outcome of parsing one construct from some position.
pub type Parsed<T> = Result<(T, nat), (Report, nat)>;

/// The kind of the token at `p`; past the end, end-of-input.
pub open spec fn kind_at(ts: Seq<Token>, p: int) -> TokenKind {
    if 0 <= p < ts.len() {
        ts[p].token_type@
    } else {
        TokenKind::EndOfFile
    }
}

/// The token at `p` (the last one past the end).
pub open spec fn tok(ts: Seq<Token>, p: int) -> Token {
    if 0 <= p < ts.len() {
        ts[p]
    } else {
        ts.last()
    }
}

/// The line of the token before `p` (of the first token at the start).
pub open spec fn prev_line(ts: Seq<Token>, p: int) -> u32 {
    if p <= 0 {
        tok(ts, 0).line
    } else {
        tok(ts, p - 1).line
    }
}

/// A token sequence the parser accepts: it ends with end-of-input.
pub open spec fn well_formed(ts: Seq<Token>) -> bool {
    ts.len() > 0 && ts.last().token_type@ is EndOfFile
}

/// Adds `n` to the count of tokens taken, on either outcome.
pub open spec fn shift<T>(r: Parsed<T>, n: nat) -> Parsed<T> {
    match r {
        Ok((v, c)) => Ok((v, c + n)),
        Err((e, c)) => Err((e, c + n)),
    }
}

/// Whether `k` is an operator of binary precedence level `level`:
/// 1 factor, 2 term, 3 comparison, 4 equality.
pub open spec fn is_level_op(level: nat, k: TokenKind) -> bool {
    if level == 1 {
        k is Slash || k is Star
    } else if level == 2 {
        k is Minus || k is Plus
    } else if level == 3 {
        k is Greater || k is GreaterEqual || k is Less || k is LessEqual
    } else {
        k is BangEqual || k is EqualEqual
    }
}

/// expression → conditional
pub open spec fn expression(ts: Seq<Token>, p: int) -> Parsed<Expr>
    decreases ts.len() - p, 13nat,
{
    conditional(ts, p)
}

/// conditional → equality ( "?" expression ":" expression )?
pub open spec fn conditional(ts: Seq<Token>, p: int) -> Parsed<Expr>
    decreases ts.len() - p, 12nat,
{
    match binary(ts, p, 4) {
        Err(e) => Err(e),
        Ok((condition, c1)) => {
            let q = p + c1;
            if kind_at(ts, q) is QuestionMark {
                match expression(ts, q + 1) {
                    Err((e, c2)) => Err((e, c1 + 1 + c2)),
                    Ok((consequent, c2)) => {
                        let r = q + 1 + c2;
                        if kind_at(ts, r) is Colon {
                            match expression(ts, r + 1) {
                                Err((e, c3)) => Err((e, c1 + c2 + c3 + 2)),
                                Ok((alternative, c3)) => Ok(
                                    (
                                        Expr::Conditional {
                                            condition: Box::new(condition),
                                            consequent: Box::new(consequent),
                                            alternative: Box::new(alternative),
                                        },
                                        c1 + c2 + c3 + 2,
                                    ),
                                ),
                            }
                        } else {
                            Err(
                                (
                                    Report { line: prev_line(ts, r), kind: StaticErrorKind::ExpectColon },
                                    c1 + 1 + c2,
                                ),
                            )
                        }
                    },
                }
            } else {
                Ok((condition, c1))
            }
        },
    }
}

/// The operand of binary level `level`: the next level up, or a unary.
pub open spec fn operand(ts: Seq<Token>, p: int, level: nat) -> Parsed<Expr>
    decreases ts.len() - p, 2 * level + 2,
{
    if level <= 1 {
        unary(ts, p)
    } else {
        binary(ts, p, (level - 1) as nat)
    }
}

/// One binary precedence level: an operand, then a left fold over
/// `operator operand` pairs of this level.
pub open spec fn binary(ts: Seq<Token>, p: int, level: nat) -> Parsed<Expr>
    decreases ts.len() - p, 2 * level + 3,
{
    match operand(ts, p, level) {
        Err(e) => Err(e),
        // The guard never fails: positions stay within the sequence.
        Ok((left, c)) => if p + c <= ts.len() {
            shift(fold(ts, p + c, level, left), c)
        } else {
            Ok((left, c))
        },
    }
}

/// The left fold of level `level` from `p`, with `left` parsed so far.
pub open spec fn fold(ts: Seq<Token>, p: int, level: nat, left: Expr) -> Parsed<Expr>
    decreases ts.len() - p, 2 * level + 1,
{
    if is_level_op(level, kind_at(ts, p)) {
        match operand(ts, p + 1, level) {
            Err((e, c)) => Err((e, c + 1)),
            Ok((right, c)) => {
                let folded = Expr::Binary {
                    left: Box::new(left),
                    operator: tok(ts, p),
                    right: Box::new(right),
                };
                if p + 1 + c <= ts.len() {
                    shift(fold(ts, p + 1 + c, level, folded), c + 1)
                } else {
                    Ok((folded, c + 1))
                }
            },
        }
    } else {
        Ok((left, 0))
    }
}

/// unary → ( "!" | "-" ) unary | primary
pub open spec fn unary(ts: Seq<Token>, p: int) -> Parsed<Expr>
    decreases ts.len() - p, 1nat,
{
    if kind_at(ts, p) is Bang || kind_at(ts, p) is Minus {
        match unary(ts, p + 1) {
            Err((e, c)) => Err((e, c + 1)),
            Ok((right, c)) => Ok((Expr::Unary { operator: tok(ts, p), right: Box::new(right) }, c + 1)),
        }
    } else {
        primary(ts, p)
    }
}

/// primary → literal | "(" expression ")" | identifier
pub open spec fn primary(ts: Seq<Token>, p: int) -> Parsed<Expr>
    decreases ts.len() - p, 0nat,
{
    let k = kind_at(ts, p);
    if k is False || k is True || k is Number || k is Str || k is Nil {
        Ok((Expr::Literal { value: tok(ts, p) }, 1))
    } else if k is Identifier {
        Ok((Expr::Variable { name: tok(ts, p) }, 1))
    } else if k is EndOfFile {
        Ok((Expr::Literal { value: tok(ts, p) }, 0))
    } else if k is LeftParen {
        match expression(ts, p + 1) {
            Err((e, c)) => Err((e, c + 1)),
            Ok((inner, c)) => if kind_at(ts, p + 1 + c) is RightParen {
                Ok((Expr::Grouping { expression: Box::new(inner) }, c + 2))
            } else {
                Err(
                    (
                        Report { line: prev_line(ts, p + 1 + c), kind: StaticErrorKind::ExpectRightParen },
                        c + 1,
                    ),
                )
            },
        }
    } else {
        Err(
            (
                Report {
                    line: tok(ts, p).line,
                    kind: StaticErrorKind::UnexpectedToken(tok(ts, p).lexeme),
                },
                0,
            ),
        )
    }
}

/// An expression followed by `;`: the statement built from the expression,
/// or the error `missing` when the `;` is not there.
pub open spec fn terminated(ts: Seq<Token>, p: int, print: bool) -> Parsed<Stmt> {
    match expression(ts, p) {
        Err(e) => Err(e),
        Ok((e, c)) => if kind_at(ts, p + c) is Semicolon {
            Ok(
                (
                    if print {
                        Stmt::Print(e)
                    } else {
                        Stmt::Expression(e)
                    },
                    c + 1,
                ),
            )
        } else {
            Err(
                (
                    Report {
                        line: prev_line(ts, p + c),
                        kind: if print {
                            StaticErrorKind::ExpectSemicolonAfterValue
                        } else {
                            StaticErrorKind::ExpectSemicolonAfterExpression
                        },
                    },
                    c,
                ),
            )
        },
    }
}

/// The rest of `var` IDENTIFIER "=" expression ";" after the `var`.
pub open spec fn var_declaration(ts: Seq<Token>, p: int) -> Parsed<Stmt> {
    if !(kind_at(ts, p) is Identifier) {
        Err((Report { line: prev_line(ts, p), kind: StaticErrorKind::ExpectIdentifierAfterVar }, 0))
    } else if !(kind_at(ts, p + 1) is Equal) {
        Err((Report { line: prev_line(ts, p + 1), kind: StaticErrorKind::ExpectEqualAfterName }, 1))
    } else {
        match expression(ts, p + 2) {
            Err((e, c)) => Err((e, c + 2)),
            Ok((initializer, c)) => if kind_at(ts, p + 2 + c) is Semicolon {
                Ok(
                    (
                        Stmt::Var { name: tok(ts, p).token_type->Identifier_0, initializer },
                        c + 3,
                    ),
                )
            } else {
                Err(
                    (
                        Report {
                            line: prev_line(ts, p + 2 + c),
                            kind: StaticErrorKind::ExpectSemicolonAfterDeclaration,
                        },
                        c + 2,
                    ),
                )
            },
        }
    }
}

/// declaration → "var" var_declaration | "print" expression ";" | expression ";"
pub open spec fn declaration(ts: Seq<Token>, p: int) -> Parsed<Stmt> {
    if kind_at(ts, p) is Var {
        shift(var_declaration(ts, p + 1), 1)
    } else if kind_at(ts, p) is Print {
        shift(terminated(ts, p + 1, true), 1)
    } else {
        terminated(ts, p, false)
    }
}

/// Whether a token of kind `k` starts a statement (a recovery point).
pub open spec fn starts_statement(k: TokenKind) -> bool {
    k is Class || k is Fun || k is Var || k is For || k is If || k is While || k is Print
        || k is Return
}

/// Panic-mode recovery from `p`, where the token before `p` has been taken:
/// skip tokens until the one just taken is `;`, or the next starts a
/// statement, or input ends.
pub open spec fn sync_from(ts: Seq<Token>, p: int) -> int
    decreases ts.len() - p,
{
    if kind_at(ts, p) is EndOfFile || kind_at(ts, p - 1) is Semicolon || starts_statement(
        kind_at(ts, p),
    ) {
        p
    } else {
        sync_from(ts, p + 1)
    }
}

/// Where parsing resumes after an error met at `p`: one token is skipped
/// (unless input has ended), then `sync_from`.
pub open spec fn recover(ts: Seq<Token>, p: int) -> int {
    if kind_at(ts, p) is EndOfFile {
        p
    } else {
        sync_from(ts, p + 1)
    }
}

/// The statements and the syntax errors of the program from `p` on.
pub open spec fn program_from(ts: Seq<Token>, p: int) -> (Seq<Stmt>, Seq<Report>)
    decreases ts.len() - p,
{
    if kind_at(ts, p) is EndOfFile {
        (Seq::empty(), Seq::empty())
    } else {
        // Both guards below always hold: a statement takes at least its `;`,
        // and recovery moves forward without leaving the sequence.
        match declaration(ts, p) {
            Ok((s, c)) => {
                let rest = program_from(ts, p + if c > 0 { c as int } else { 1 });
                (seq![s] + rest.0, rest.1)
            },
            Err((e, c)) => {
                let q = recover(ts, p + c);
                let rest = program_from(ts, if p < q <= ts.len() { q } else { p + 1 });
                (rest.0, seq![e] + rest.1)
            },
        }
    }
}

/// The statements and the syntax errors of a whole token sequence.
pub open spec fn program(ts: Seq<Token>) -> (Seq<Stmt>, Seq<Report>) {
    program_from(ts, 0)
}

proof fn lemma_sync_bounds(ts: Seq<Token>, y: int, j: int)
    requires
        0 <= y <= j + 1,
        j < ts.len(),
        kind_at(ts, j) is Semicolon,
    ensures
        y <= sync_from(ts, y) <= j + 1,
    decreases ts.len() - y,
{
    if !(kind_at(ts, y) is EndOfFile || kind_at(ts, y - 1) is Semicolon || starts_statement(
        kind_at(ts, y),
    )) {
        lemma_sync_bounds(ts, y + 1, j);
    }
}

/// Recovery costs at most the rest of the failing statement: when the
/// declaration at `p` fails, its error is reported and parsing goes on from
/// a position no later than just after the first `;` at or after the point
/// where the error was met, so the statements after it are still parsed and
/// their errors reported too.
pub proof fn lemma_error_recovery(ts: Seq<Token>, p: int, j: int)
    requires
        0 <= p,
        !(kind_at(ts, p) is EndOfFile),
        declaration(ts, p) is Err,
        p + declaration(ts, p)->Err_0.1 <= j < ts.len(),
        kind_at(ts, j) is Semicolon,
    ensures
        exists|q: int|
            p < q <= j + 1 && program_from(ts, p) == (
                program_from(ts, q).0,
                seq![declaration(ts, p)->Err_0.0] + program_from(ts, q).1,
            ),
{
    let (e, c) = declaration(ts, p)->Err_0;
    let x = p + c;
    if !(kind_at(ts, x) is EndOfFile) {
        lemma_sync_bounds(ts, x + 1, j);
    }
    let q = recover(ts, x);
    assert(p < q <= j + 1);
    assert(program_from(ts, p) == (program_from(ts, q).0, seq![e] + program_from(ts, q).1));
}

/// The expression a single number or identifier token parses to.
pub open spec fn atom(t: Token) -> Expr {
    if t.token_type@ is Identifier {
        Expr::Variable { name: t }
    } else {
        Expr::Literal { value: t }
    }
}

/// Whether `k` is a number or an identifier.
pub open spec fn is_atom(k: TokenKind) -> bool {
    k is Number || k is Identifier
}

/// Whether `k` is no binary operator of levels 1 through `level`.
pub open spec fn ends_level(k: TokenKind, level: nat) -> bool {
    forall|l: nat| 1 <= l <= level ==> !#[trigger] is_level_op(l, k)
}

proof fn lemma_atom_binary(ts: Seq<Token>, q: int, level: nat)
    requires
        0 <= q,
        q + 1 < ts.len(),
        is_atom(kind_at(ts, q)),
        1 <= level <= 4,
        ends_level(kind_at(ts, q + 1), level),
    ensures
        binary(ts, q, level) == Ok::<(Expr, nat), (Report, nat)>((atom(ts[q]), 1)),
    decreases level,
{
    assert(!is_level_op(level, kind_at(ts, q + 1)));
    if level == 1 {
        assert(primary(ts, q) == Ok::<(Expr, nat), (Report, nat)>((atom(ts[q]), 1)));
        assert(unary(ts, q) == primary(ts, q));
        assert(fold(ts, q + 1, 1, atom(ts[q])) == Ok::<(Expr, nat), (Report, nat)>((atom(ts[q]), 0)));
    } else {
        assert(ends_level(kind_at(ts, q + 1), (level - 1) as nat));
        lemma_atom_binary(ts, q, (level - 1) as nat);
        assert(fold(ts, q + 1, level, atom(ts[q])) == Ok::<(Expr, nat), (Report, nat)>(
            (atom(ts[q]), 0),
        ));
    }
}

proof fn lemma_atom_expression(ts: Seq<Token>, q: int)
    requires
        0 <= q,
        q + 1 < ts.len(),
        is_atom(kind_at(ts, q)),
        ends_level(kind_at(ts, q + 1), 4),
        !(kind_at(ts, q + 1) is QuestionMark),
    ensures
        expression(ts, q) == Ok::<(Expr, nat), (Report, nat)>((atom(ts[q]), 1)),
{
    lemma_atom_binary(ts, q, 4);
}

/// Binary operators of one level associate to the left: `a - b - c` (any
/// two operators of the term level, any numbers or names as operands) parses
/// as `(a - b) - c`.
pub proof fn lemma_term_left_associative(ts: Seq<Token>, p: int)
    requires
        0 <= p,
        p + 5 < ts.len(),
        is_atom(kind_at(ts, p)),
        is_atom(kind_at(ts, p + 2)),
        is_atom(kind_at(ts, p + 4)),
        is_level_op(2, kind_at(ts, p + 1)),
        is_level_op(2, kind_at(ts, p + 3)),
        ends_level(kind_at(ts, p + 5), 4),
        !(kind_at(ts, p + 5) is QuestionMark),
    ensures
        expression(ts, p) == Ok::<(Expr, nat), (Report, nat)>(
            (
                Expr::Binary {
                    left: Box::new(
                        Expr::Binary {
                            left: Box::new(atom(ts[p])),
                            operator: ts[p + 1],
                            right: Box::new(atom(ts[p + 2])),
                        },
                    ),
                    operator: ts[p + 3],
                    right: Box::new(atom(ts[p + 4])),
                },
                5,
            ),
        ),
{
    let a = atom(ts[p]);
    let ab = Expr::Binary { left: Box::new(a), operator: ts[p + 1], right: Box::new(atom(ts[p + 2])) };
    let abc = Expr::Binary { left: Box::new(ab), operator: ts[p + 3], right: Box::new(atom(ts[p + 4])) };
    assert(ends_level(kind_at(ts, p + 1), 1));
    assert(ends_level(kind_at(ts, p + 3), 1));
    assert(ends_level(kind_at(ts, p + 5), 1));
    lemma_atom_binary(ts, p, 1);
    lemma_atom_binary(ts, p + 2, 1);
    lemma_atom_binary(ts, p + 4, 1);
    assert(!is_level_op(2, kind_at(ts, p + 5)));
    assert(!is_level_op(3, kind_at(ts, p + 5)));
    assert(!is_level_op(4, kind_at(ts, p + 5)));
    assert(fold(ts, p + 5, 2, abc) == Ok::<(Expr, nat), (Report, nat)>((abc, 0)));
    assert(operand(ts, p + 4, 2) == binary(ts, p + 4, 1));
    assert(operand(ts, p + 2, 2) == binary(ts, p + 2, 1));
    assert(tok(ts, p + 3) == ts[p + 3]);
    assert(tok(ts, p + 1) == ts[p + 1]);
    assert(fold(ts, p + 3, 2, ab) == Ok::<(Expr, nat), (Report, nat)>((abc, 2)));
    assert(fold(ts, p + 1, 2, a) == Ok::<(Expr, nat), (Report, nat)>((abc, 4)));
    assert(binary(ts, p, 2) == Ok::<(Expr, nat), (Report, nat)>((abc, 5)));
    assert(binary(ts, p, 3) == Ok::<(Expr, nat), (Report, nat)>((abc, 5)));
    assert(binary(ts, p, 4) == Ok::<(Expr, nat), (Report, nat)>((abc, 5)));
}

/// The conditional associates to the right: `a ? b : c ? d : e` (numbers
/// or names) parses with the second conditional as the alternative of the
/// first.
pub proof fn lemma_conditional_right_associative(ts: Seq<Token>, p: int)
    requires
        0 <= p,
        p + 9 < ts.len(),
        is_atom(kind_at(ts, p)),
        is_atom(kind_at(ts, p + 2)),
        is_atom(kind_at(ts, p + 4)),
        is_atom(kind_at(ts, p + 6)),
        is_atom(kind_at(ts, p + 8)),
        kind_at(ts, p + 1) is QuestionMark,
        kind_at(ts, p + 5) is QuestionMark,
        kind_at(ts, p + 3) is Colon,
        kind_at(ts, p + 7) is Colon,
        ends_level(kind_at(ts, p + 9), 4),
        !(kind_at(ts, p + 9) is QuestionMark),
    ensures
        expression(ts, p) == Ok::<(Expr, nat), (Report, nat)>(
            (
                Expr::Conditional {
                    condition: Box::new(atom(ts[p])),
                    consequent: Box::new(atom(ts[p + 2])),
                    alternative: Box::new(
                        Expr::Conditional {
                            condition: Box::new(atom(ts[p + 4])),
                            consequent: Box::new(atom(ts[p + 6])),
                            alternative: Box::new(atom(ts[p + 8])),
                        },
                    ),
                },
                9,
            ),
        ),
{
    assert(ends_level(kind_at(ts, p + 1), 4));
    assert(ends_level(kind_at(ts, p + 3), 4));
    assert(ends_level(kind_at(ts, p + 5), 4));
    assert(ends_level(kind_at(ts, p + 7), 4));
    lemma_atom_binary(ts, p, 4);
    lemma_atom_binary(ts, p + 4, 4);
    lemma_atom_expression(ts, p + 2);
    lemma_atom_expression(ts, p + 6);
    lemma_atom_expression(ts, p + 8);
    let inner = Expr::Conditional {
        condition: Box::new(atom(ts[p + 4])),
        consequent: Box::new(atom(ts[p + 6])),
        alternative: Box::new(atom(ts[p + 8])),
    };
    assert(conditional(ts, p + 4) == Ok::<(Expr, nat), (Report, nat)>((inner, 5)));
    assert(expression(ts, p + 4) == Ok::<(Expr, nat), (Report, nat)>((inner, 5)));
}

/// The left fold of `first` with each operator and operand in turn:
/// `((first op0 e0) op1 e1) ...`.
pub open spec fn left_fold(first: Expr, operators: Seq<Token>, operands: Seq<Expr>) -> Expr
    decreases operators.len(),
{
    if operators.len() == 0 || operands.len() == 0 {
        first
    } else {
        left_fold(
            Expr::Binary {
                left: Box::new(first),
                operator: operators[0],
                right: Box::new(operands[0]),
            },
            operators.drop_first(),
            operands.drop_first(),
        )
    }
}

/// The operators at positions `at[i]` take their right operands from
/// `at[i] + 1` up to `at[i + 1]`, and the token at the last position ends
/// the level.
pub open spec fn level_chain(
    ts: Seq<Token>,
    level: nat,
    operators: Seq<Token>,
    operands: Seq<Expr>,
    at: Seq<int>,
) -> bool {
    &&& operators.len() == operands.len()
    &&& at.len() == operands.len() + 1
    &&& at.last() <= ts.len()
    &&& !is_level_op(level, kind_at(ts, at.last()))
    &&& forall|i: int|
        0 <= i < operands.len() ==> {
            &&& at[i] < at[i + 1]
            &&& is_level_op(level, kind_at(ts, #[trigger] at[i]))
            &&& ts[at[i]] == operators[i]
            &&& operand(ts, at[i] + 1, level) == Ok::<(Expr, nat), (Report, nat)>(
                (operands[i], (at[i + 1] - at[i] - 1) as nat),
            )
        }
}

proof fn lemma_fold_chain(
    ts: Seq<Token>,
    level: nat,
    acc: Expr,
    operators: Seq<Token>,
    operands: Seq<Expr>,
    at: Seq<int>,
    k: int,
)
    requires
        level_chain(ts, level, operators, operands, at),
        0 <= k <= operands.len(),
        0 <= at[k],
    ensures
        at[k] <= at.last(),
        fold(ts, at[k], level, acc) == Ok::<(Expr, nat), (Report, nat)>(
            (
                left_fold(
                    acc,
                    operators.subrange(k, operators.len() as int),
                    operands.subrange(k, operands.len() as int),
                ),
                (at.last() - at[k]) as nat,
            ),
        ),
    decreases operands.len() - k,
{
    let n = operands.len() as int;
    if k == n {
        assert(operators.subrange(k, n).len() == 0);
        assert(at[k] == at.last());
    } else {
        assert(at[k] < at[k + 1]);
        assert(is_level_op(level, kind_at(ts, at[k])));
        let next = Expr::Binary {
            left: Box::new(acc),
            operator: operators[k],
            right: Box::new(operands[k]),
        };
        lemma_fold_chain(ts, level, next, operators, operands, at, k + 1);
        assert(tok(ts, at[k]) == operators[k]);
        assert(operators.subrange(k, n).drop_first() =~= operators.subrange(k + 1, n));
        assert(operands.subrange(k, n).drop_first() =~= operands.subrange(k + 1, n));
        assert(operators.subrange(k, n)[0] == operators[k]);
        assert(operands.subrange(k, n)[0] == operands[k]);
    }
}

/// Every binary precedence level folds to the left: when the tokens from `p`
/// spell an operand of the level, then any number of `operator operand`
/// pairs of the level (as `level_chain` lays out), the level parses to the
/// left-nested fold `((e0 op1 e1) op2 e2) ...`, taking every token up to the
/// one that ends the level.
pub proof fn lemma_level_left_fold(
    ts: Seq<Token>,
    p: int,
    level: nat,
    first: Expr,
    operators: Seq<Token>,
    operands: Seq<Expr>,
    at: Seq<int>,
)
    requires
        0 <= p <= at[0],
        level_chain(ts, level, operators, operands, at),
        operand(ts, p, level) == Ok::<(Expr, nat), (Report, nat)>((first, (at[0] - p) as nat)),
    ensures
        binary(ts, p, level) == Ok::<(Expr, nat), (Report, nat)>(
            (left_fold(first, operators, operands), (at.last() - p) as nat),
        ),
{
    lemma_fold_chain(ts, level, first, operators, operands, at, 0);
    assert(operators.subrange(0, operators.len() as int) =~= operators);
    assert(operands.subrange(0, operands.len() as int) =~= operands);
}

/// Whether the exec result `r`, with the parser moved from `before` to
/// `after`, is the spec outcome `expected`.
pub open spec fn agrees<T>(r: Result<T, Report>, expected: Parsed<T>, before: int, after: int) -> bool {
    match expected {
        Ok((v, c)) => r == Ok::<T, Report>(v) && after == before + c,
        Err((e, c)) => r == Err::<T, Report>(e) && after == before + c,
    }
}

// ---------------------------------------------------------------------------
// The executable recursive-descent parser.
/// The parser: a token sequence and the position of the next token.
pub struct Parser {
    tokens: Vec<Token>,
    current: usize,
}

impl Parser {
    pub closed spec fn tokens(&self) -> Seq<Token> {
        self.tokens@
    }

    pub closed spec fn position(&self) -> int {
        self.current as int
    }

    /// The parser stays on the sequence, which ends with end-of-input.
    pub closed spec fn inv(&self) -> bool {
        well_formed(self.tokens@) && self.current < self.tokens@.len()
    }

    pub fn new(tokens: Vec<Token>) -> (r: Self)
        requires
            well_formed(tokens@),
        ensures
            r.inv(),
            r.tokens() == tokens@,
            r.position() == 0,
    {
        Parser { tokens, current: 0 }
    }

    fn peek(&self) -> (r: &Token)
        requires
            self.inv(),
        ensures
            *r == self.tokens@[self.current as int],
            r.token_type@ == kind_at(self.tokens@, self.current as int),
    {
        &self.tokens[self.current]
    }

    fn is_at_end(&self) -> (r: bool)
        requires
            self.inv(),
        ensures
            r == kind_at(self.tokens@, self.current as int) is EndOfFile,
    {
        matches!(self.peek().token_type, TokenType::EndOfFile)
    }

    /// Takes the current token, which is not end-of-input.
    fn advance(&mut self)
        requires
            old(self).inv(),
            !(kind_at(old(self).tokens@, old(self).current as int) is EndOfFile),
        ensures
            final(self).inv(),
            final(self).tokens@ == old(self).tokens@,
            final(self).current == old(self).current + 1,
    {
        let _len = self.tokens.len();
        assert(self.current != _len - 1);
        self.current = self.current + 1;
    }

    fn previous_line(&self) -> (r: u32)
        requires
            self.inv(),
        ensures
            r == prev_line(self.tokens@, self.current as int),
    {
        if self.current == 0 {
            self.tokens[0].line
        } else {
            self.tokens[self.current - 1].line
        }
    }

    fn at_level_op(&self, level: u8) -> (r: bool)
        requires
            self.inv(),
        ensures
            r == is_level_op(level as nat, kind_at(self.tokens@, self.current as int)),
    {
        let t = &self.peek().token_type;
        if level == 1 {
            matches!(t, TokenType::Slash | TokenType::Star)
        } else if level == 2 {
            matches!(t, TokenType::Minus | TokenType::Plus)
        } else if level == 3 {
            matches!(
                t,
                TokenType::Greater | TokenType::GreaterEqual | TokenType::Less | TokenType::LessEqual
            )
        } else {
            matches!(t, TokenType::BangEqual | TokenType::EqualEqual)
        }
    }

    fn expression(&mut self) -> (r: Result<Expr, Report>)
        requires
            old(self).inv(),
        ensures
            final(self).inv(),
            final(self).tokens@ == old(self).tokens@,
            agrees(
                r,
                expression(old(self).tokens@, old(self).current as int),
                old(self).current as int,
                final(self).current as int,
            ),
        decreases old(self).tokens@.len() - old(self).current, 13nat,
    {
        self.conditional()
    }

    fn conditional(&mut self) -> (r: Result<Expr, Report>)
        requires
            old(self).inv(),
        ensures
            final(self).inv(),
            final(self).tokens@ == old(self).tokens@,
            agrees(
                r,
                conditional(old(self).tokens@, old(self).current as int),
                old(self).current as int,
                final(self).current as int,
            ),
        decreases old(self).tokens@.len() - old(self).current, 12nat,
    {
        let condition = match self.binary(4) {
            Ok(e) => e,
            Err(e) => return Err(e),
        };
        if !matches!(self.peek().token_type, TokenType::QuestionMark) {
            return Ok(condition);
        }
        self.advance();
        let consequent = match self.expression() {
            Ok(e) => e,
            Err(e) => return Err(e),
        };
        if !matches!(self.peek().token_type, TokenType::Colon) {
            return Err(Report { line: self.previous_line(), kind: StaticErrorKind::ExpectColon });
        }
        self.advance();
        let alternative = match self.expression() {
            Ok(e) => e,
            Err(e) => return Err(e),
        };
        Ok(
            Expr::Conditional {
                condition: Box::new(condition),
                consequent: Box::new(consequent),
                alternative: Box::new(alternative),
            },
        )
    }

    fn operand(&mut self, level: u8) -> (r: Result<Expr, Report>)
        requires
            old(self).inv(),
            level <= 4,
        ensures
            final(self).inv(),
            final(self).tokens@ == old(self).tokens@,
            agrees(
                r,
                operand(old(self).tokens@, old(self).current as int, level as nat),
                old(self).current as int,
                final(self).current as int,
            ),
        decreases old(self).tokens@.len() - old(self).current, 2 * level + 2,
    {
        if level <= 1 {
            self.unary()
        } else {
            self.binary(level - 1)
        }
    }

    /// One binary precedence level: an operand, then a left fold while the
    /// next token is one of the level's operators. The same routine serves
    /// every level.
    fn binary(&mut self, level: u8) -> (r: Result<Expr, Report>)
        requires
            old(self).inv(),
            level <= 4,
        ensures
            final(self).inv(),
            final(self).tokens@ == old(self).tokens@,
            agrees(
                r,
                binary(old(self).tokens@, old(self).current as int, level as nat),
                old(self).current as int,
                final(self).current as int,
            ),
        decreases old(self).tokens@.len() - old(self).current, 2 * level + 3,
    {
        let ghost ts = self.tokens@;
        let ghost p0 = self.current as int;
        let mut expr = match self.operand(level) {
            Ok(e) => e,
            Err(e) => return Err(e),
        };
        let ghost whole = binary(ts, p0, level as nat);
        assert(whole == shift(fold(ts, self.current as int, level as nat, expr), (self.current - p0) as nat));
        while self.at_level_op(level)
            invariant
                self.inv(),
                self.tokens@ == ts,
                ts == old(self).tokens@,
                p0 == old(self).current,
                level <= 4,
                p0 <= self.current,
                whole == binary(ts, p0, level as nat),
                whole == shift(fold(ts, self.current as int, level as nat, expr), (self.current - p0) as nat),
            decreases ts.len() - self.current,
        {
            let ghost q = self.current as int;
            let ghost old_expr = expr;
            let operator = self.peek().duplicate();
            self.advance();
            let right = match self.operand(level) {
                Ok(e) => e,
                Err(e) => {
                    assert(fold(ts, q, level as nat, expr) == Err::<(Expr, nat), (Report, nat)>(
                        (e, (self.current - q) as nat),
                    ));
                    return Err(e);
                },
            };
            let ghost c = (self.current - (q + 1)) as nat;
            expr = Expr::Binary { left: Box::new(expr), operator, right: Box::new(right) };
            assert(fold(ts, q, level as nat, old_expr) == shift(
                fold(ts, self.current as int, level as nat, expr),
                c + 1,
            ));
        }
        Ok(expr)
    }

    fn unary(&mut self) -> (r: Result<Expr, Report>)
        requires
            old(self).inv(),
        ensures
            final(self).inv(),
            final(self).tokens@ == old(self).tokens@,
            agrees(
                r,
                unary(old(self).tokens@, old(self).current as int),
                old(self).current as int,
                final(self).current as int,
            ),
        decreases old(self).tokens@.len() - old(self).current, 1nat,
    {
        if matches!(self.peek().token_type, TokenType::Bang | TokenType::Minus) {
            let operator = self.peek().duplicate();
            self.advance();
            match self.unary() {
                Ok(right) => Ok(Expr::Unary { operator, right: Box::new(right) }),
                Err(e) => Err(e),
            }
        } else {
            self.primary()
        }
    }

    fn primary(&mut self) -> (r: Result<Expr, Report>)
        requires
            old(self).inv(),
        ensures
            final(self).inv(),
            final(self).tokens@ == old(self).tokens@,
            agrees(
                r,
                primary(old(self).tokens@, old(self).current as int),
                old(self).current as int,
                final(self).current as int,
            ),
        decreases old(self).tokens@.len() - old(self).current, 0nat,
    {
        let t = self.peek().duplicate();
        match t.token_type {
            TokenType::False | TokenType::True | TokenType::Number(_) | TokenType::Str(_)
            | TokenType::Nil => {
                self.advance();
                Ok(Expr::Literal { value: t })
            },
            TokenType::Identifier(_) => {
                self.advance();
                Ok(Expr::Variable { name: t })
            },
            TokenType::EndOfFile => Ok(Expr::Literal { value: t }),
            TokenType::LeftParen => {
                self.advance();
                let inner = match self.expression() {
                    Ok(e) => e,
                    Err(e) => return Err(e),
                };
                if matches!(self.peek().token_type, TokenType::RightParen) {
                    self.advance();
                    Ok(Expr::Grouping { expression: Box::new(inner) })
                } else {
                    Err(
                        Report {
                            line: self.previous_line(),
                            kind: StaticErrorKind::ExpectRightParen,
                        },
                    )
                }
            },
            _ => Err(Report { line: t.line, kind: StaticErrorKind::UnexpectedToken(t.lexeme) }),
        }
    }

    /// An expression and a `;`: a print statement when `print`, else an
    /// expression statement.
    fn terminated(&mut self, print: bool) -> (r: Result<Stmt, Report>)
        requires
            old(self).inv(),
        ensures
            final(self).inv(),
            final(self).tokens@ == old(self).tokens@,
            agrees(
                r,
                terminated(old(self).tokens@, old(self).current as int, print),
                old(self).current as int,
                final(self).current as int,
            ),
            r is Ok ==> final(self).current > old(self).current,
    {
        let e = match self.expression() {
            Ok(e) => e,
            Err(e) => return Err(e),
        };
        if matches!(self.peek().token_type, TokenType::Semicolon) {
            self.advance();
            Ok(
                if print {
                    Stmt::Print(e)
                } else {
                    Stmt::Expression(e)
                },
            )
        } else {
            let kind = if print {
                StaticErrorKind::ExpectSemicolonAfterValue
            } else {
                StaticErrorKind::ExpectSemicolonAfterExpression
            };
            Err(Report { line: self.previous_line(), kind })
        }
    }

    fn var_declaration(&mut self) -> (r: Result<Stmt, Report>)
        requires
            old(self).inv(),
        ensures
            final(self).inv(),
            final(self).tokens@ == old(self).tokens@,
            agrees(
                r,
                var_declaration(old(self).tokens@, old(self).current as int),
                old(self).current as int,
                final(self).current as int,
            ),
            r is Ok ==> final(self).current > old(self).current,
    {
        let name = match &self.peek().token_type {
            TokenType::Identifier(n) => n.clone(),
            _ => {
                return Err(
                    Report {
                        line: self.previous_line(),
                        kind: StaticErrorKind::ExpectIdentifierAfterVar,
                    },
                )
            },
        };
        self.advance();
        if !matches!(self.peek().token_type, TokenType::Equal) {
            return Err(
                Report { line: self.previous_line(), kind: StaticErrorKind::ExpectEqualAfterName },
            );
        }
        self.advance();
        let initializer = match self.expression() {
            Ok(e) => e,
            Err(e) => return Err(e),
        };
        if matches!(self.peek().token_type, TokenType::Semicolon) {
            self.advance();
            Ok(Stmt::Var { name, initializer })
        } else {
            Err(
                Report {
                    line: self.previous_line(),
                    kind: StaticErrorKind::ExpectSemicolonAfterDeclaration,
                },
            )
        }
    }

    fn declaration(&mut self) -> (r: Result<Stmt, Report>)
        requires
            old(self).inv(),
        ensures
            final(self).inv(),
            final(self).tokens@ == old(self).tokens@,
            agrees(
                r,
                declaration(old(self).tokens@, old(self).current as int),
                old(self).current as int,
                final(self).current as int,
            ),
            r is Ok ==> final(self).current > old(self).current,
    {
        if matches!(self.peek().token_type, TokenType::Var) {
            self.advance();
            self.var_declaration()
        } else if matches!(self.peek().token_type, TokenType::Print) {
            self.advance();
            self.terminated(true)
        } else {
            self.terminated(false)
        }
    }

    /// Panic-mode recovery: skips the current token, then tokens until the
    /// one just taken is `;`, the next starts a statement, or input ends.
    fn synchronize(&mut self)
        requires
            old(self).inv(),
        ensures
            final(self).inv(),
            final(self).tokens@ == old(self).tokens@,
            final(self).current == recover(old(self).tokens@, old(self).current as int),
            old(self).current <= final(self).current,
            !(kind_at(old(self).tokens@, old(self).current as int) is EndOfFile)
                ==> old(self).current < final(self).current,
    {
        if self.is_at_end() {
            return;
        }
        self.advance();
        let ghost ts = self.tokens@;
        let ghost start = self.current as int;
        while !self.is_at_end()
            invariant
                self.inv(),
                self.tokens@ == ts,
                ts == old(self).tokens@,
                start == old(self).current + 1,
                start <= self.current,
                recover(ts, old(self).current as int) == sync_from(ts, start),
                sync_from(ts, start) == sync_from(ts, self.current as int),
            decreases ts.len() - self.current,
        {
            assert(self.tokens@[self.current - 1].token_type@ == kind_at(ts, self.current - 1));
            if matches!(self.tokens[self.current - 1].token_type, TokenType::Semicolon) {
                assert(sync_from(ts, self.current as int) == self.current);
                return;
            }
            if matches!(
                self.peek().token_type,
                TokenType::Class | TokenType::Fun | TokenType::Var | TokenType::For | TokenType::If
                    | TokenType::While | TokenType::Print | TokenType::Return
            ) {
                assert(sync_from(ts, self.current as int) == self.current);
                return;
            }
            self.advance();
        }
    }

    /// Parses the program: every statement that parses, in order. Each
    /// syntax error is recorded in `diag`, and parsing resumes at the next
    /// statement boundary.
    pub fn parse(&mut self, diag: &mut Diagnostics) -> (r: Vec<Stmt>)
        requires
            old(self).inv(),
        ensures
            final(self).inv(),
            r@ == program_from(old(self).tokens(), old(self).position()).0,
            final(diag).spec_reports() == old(diag).spec_reports() + program_from(
                old(self).tokens(),
                old(self).position(),
            ).1,
            final(diag).spec_runtime_errors() == old(diag).spec_runtime_errors(),
    {
        let ghost ts = self.tokens@;
        let ghost p0 = self.current as int;
        let mut statements: Vec<Stmt> = Vec::new();
        while !self.is_at_end()
            invariant
                self.inv(),
                self.tokens@ == ts,
                statements@ + program_from(ts, self.current as int).0 == program_from(ts, p0).0,
                diag.spec_reports() + program_from(ts, self.current as int).1
                    == old(diag).spec_reports() + program_from(ts, p0).1,
                diag.spec_runtime_errors() == old(diag).spec_runtime_errors(),
            decreases ts.len() - self.current,
        {
            let ghost p = self.current as int;
            let ghost before_stmts = statements@;
            let ghost before_reports = diag.spec_reports();
            match self.declaration() {
                Ok(s) => {
                    let ghost rest = program_from(ts, self.current as int);
                    statements.push(s);
                    assert(before_stmts.push(s) + rest.0 =~= before_stmts + (seq![s] + rest.0));
                },
                Err(e) => {
                    let ghost rest_at = recover(ts, self.current as int);
                    crate::errors::error(diag, e.line, e.kind);
                    self.synchronize();
                    let ghost rest = program_from(ts, self.current as int);
                    let ghost rep = Report { line: e.line, kind: e.kind };
                    assert(rep == e);
                    assert(before_reports.push(rep) + rest.1 =~= before_reports + (seq![rep]
                        + rest.1));
                },
            }
        }
        statements
    }
}

} // verus!
