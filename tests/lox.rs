use rust_lox::ast_printable::ASTPrintable;
use rust_lox::environment::{Environment, EnvironmentError};
use rust_lox::errors::{
    had_error, had_runtime_error, Diagnostics, Report, RuntimeError, RuntimeErrorType,
    StaticErrorKind,
};
use rust_lox::expr::Expr;
use rust_lox::interpreter::{interpret, NumberOp, NumberRequest};
use rust_lox::lox_value::LoxValue;
use rust_lox::parser::Parser;
use rust_lox::runner::RunnerError;
use rust_lox::scanner::Scanner;
use rust_lox::stmt::Stmt;
use rust_lox::token::{Token, TokenType};

fn float_host(req: NumberRequest) -> LoxValue {
    match req {
        NumberRequest::Parse(text) => {
            LoxValue::Number(text.parse::<f64>().unwrap_or(f64::NAN).to_bits())
        }
        NumberRequest::Negate(a) => LoxValue::Number((-f64::from_bits(a)).to_bits()),
        NumberRequest::Binary(op, a, b) => {
            let (x, y) = (f64::from_bits(a), f64::from_bits(b));
            match op {
                NumberOp::Add => LoxValue::Number((x + y).to_bits()),
                NumberOp::Subtract => LoxValue::Number((x - y).to_bits()),
                NumberOp::Multiply => LoxValue::Number((x * y).to_bits()),
                NumberOp::Divide => LoxValue::Number((x / y).to_bits()),
                NumberOp::Greater => LoxValue::Bool(x > y),
                NumberOp::GreaterEqual => LoxValue::Bool(x >= y),
                NumberOp::Less => LoxValue::Bool(x < y),
                NumberOp::LessEqual => LoxValue::Bool(x <= y),
                NumberOp::Equal => LoxValue::Bool(x == y),
                NumberOp::NotEqual => LoxValue::Bool(x != y),
            }
        }
    }
}

fn num(x: f64) -> LoxValue {
    LoxValue::Number(x.to_bits())
}

fn scan(src: &str) -> (Vec<Token>, Diagnostics) {
    let mut diag = Diagnostics::new();
    let tokens = Scanner::new(src.to_string()).scan_tokens(&mut diag);
    (tokens, diag)
}

fn parse(src: &str) -> (Vec<Stmt>, Diagnostics) {
    let (tokens, mut diag) = scan(src);
    let mut parser = Parser::new(tokens);
    let stmts = parser.parse(&mut diag);
    (stmts, diag)
}

fn run(src: &str) -> (Vec<LoxValue>, Diagnostics, Environment) {
    let (stmts, mut diag) = parse(src);
    assert!(!had_error(&diag), "unexpected static errors: {:?}", diag.reports());
    let mut env = Environment::new();
    let printed = interpret(&stmts, &mut env, &float_host, &mut diag);
    (printed, diag, env)
}

fn only_expression(src: &str) -> Expr {
    let (mut stmts, diag) = parse(src);
    assert!(!had_error(&diag));
    assert_eq!(stmts.len(), 1);
    match stmts.remove(0) {
        Stmt::Expression(e) => e,
        other => panic!("expected an expression statement, got {:?}", other),
    }
}

fn eval(src: &str) -> Result<LoxValue, RuntimeError> {
    let e = only_expression(src);
    e.evaluate(&Environment::new(), &float_host)
}

fn kinds(tokens: &[Token]) -> Vec<String> {
    tokens.iter().map(|t| format!("{:?}", t.token_type)).collect()
}

fn assert_value(v: &LoxValue, expected: &LoxValue) {
    match (v, expected) {
        (LoxValue::Number(a), LoxValue::Number(b)) => assert_eq!(a, b),
        (LoxValue::Str(a), LoxValue::Str(b)) => assert_eq!(a, b),
        (LoxValue::Bool(a), LoxValue::Bool(b)) => assert_eq!(a, b),
        (LoxValue::Nil, LoxValue::Nil) => {}
        _ => panic!("{:?} is not {:?}", v, expected),
    }
}

#[test]
fn lexemes_spell_source_without_layout() {
    let src = "var  answer = (1.5 + x) >= 2; // note\n/* block /* nested */ */ print \"a b\";";
    let (tokens, diag) = scan(src);
    assert!(!had_error(&diag));
    let joined: String = tokens.iter().map(|t| t.lexeme.clone()).collect();
    assert_eq!(joined, "varanswer=(1.5+x)>=2;print\"a b\";");
}

#[test]
fn subtraction_is_left_associative() {
    let e = only_expression("1 - 2 - 3;");
    assert_eq!(e.print(), "(- (- 1 2) 3)");
    assert_value(&e.evaluate(&Environment::new(), &float_host).unwrap(), &num(-4.0));
}

#[test]
fn ternary_is_right_associative() {
    let e = only_expression("a ? b : c ? d : e;");
    assert_eq!(e.print(), "(if a b else (if c d else e))");
}

#[test]
fn truthiness_of_nil_zero_and_empty_string() {
    assert_value(&eval("!nil;").unwrap(), &LoxValue::Bool(true));
    assert_value(&eval("!0;").unwrap(), &LoxValue::Bool(false));
    assert_value(&eval("!\"\";").unwrap(), &LoxValue::Bool(false));
    assert_value(&eval("!false;").unwrap(), &LoxValue::Bool(true));
}

#[test]
fn type_errors_and_mixed_equality() {
    let e = eval("\"a\" - 1;").unwrap_err();
    assert_eq!(e.error_type, RuntimeErrorType::OperandMustBeNumber);
    assert_eq!(e.cause, "-");
    let e = eval("1 + \"a\";").unwrap_err();
    assert_eq!(e.error_type, RuntimeErrorType::OperandMustBeNumberOrString);
    assert_value(&eval("1 == \"1\";").unwrap(), &LoxValue::Bool(false));
    assert_value(&eval("1 != \"1\";").unwrap(), &LoxValue::Bool(true));
}

#[test]
fn two_malformed_statements_give_two_errors() {
    let (stmts, diag) = parse("var = 1; print );\nprint 3;");
    assert_eq!(diag.reports().len(), 2);
    assert!(matches!(diag.reports()[0].kind, StaticErrorKind::ExpectIdentifierAfterVar));
    assert!(matches!(diag.reports()[1].kind, StaticErrorKind::UnexpectedToken(ref s) if s == ")"));
    assert_eq!(stmts.len(), 1);
    assert!(matches!(stmts[0], Stmt::Print(_)));
}

#[test]
fn declaration_then_print_end_to_end() {
    let src = "var x = 1 + 2; print x * 2;";
    let (tokens, diag) = scan(src);
    assert!(!had_error(&diag));
    assert_eq!(tokens.len(), 13);
    assert!(matches!(tokens[12].token_type, TokenType::EndOfFile));
    let (stmts, _) = parse(src);
    assert_eq!(stmts.len(), 2);
    assert!(matches!(stmts[0], Stmt::Var { .. }));
    assert!(matches!(stmts[1], Stmt::Print(_)));
    let (printed, diag, _) = run(src);
    assert!(!had_runtime_error(&diag));
    assert_eq!(printed.len(), 1);
    assert_value(&printed[0], &num(6.0));
    match printed[0] {
        LoxValue::Number(bits) => assert_eq!(format!("{}", f64::from_bits(bits)), "6"),
        _ => panic!(),
    }
}

#[test]
fn division_by_zero_is_infinity() {
    let (printed, diag, _) = run("print 1 / 0;");
    assert!(!had_runtime_error(&diag));
    match printed[0] {
        LoxValue::Number(bits) => assert_eq!(format!("{}", f64::from_bits(bits)), "inf"),
        _ => panic!("expected a number"),
    }
}

#[test]
fn token_kinds_and_lines() {
    let (tokens, diag) = scan("( ) { } , . - + ; * ! != = == < <= > >= ? : /\nand1 class else false for fun if nil or print return super this true var while");
    assert!(!had_error(&diag));
    assert_eq!(
        kinds(&tokens[..22]),
        vec![
            "LeftParen", "RightParen", "LeftBrace", "RightBrace", "Comma", "Dot", "Minus", "Plus",
            "Semicolon", "Star", "Bang", "BangEqual", "Equal", "EqualEqual", "Less", "LessEqual",
            "Greater", "GreaterEqual", "QuestionMark", "Colon", "Slash", "Identifier(\"and1\")",
        ]
    );
    assert_eq!(tokens[20].line, 1);
    assert_eq!(tokens[21].line, 2);
    assert_eq!(
        kinds(&tokens[22..]),
        vec![
            "Class", "Else", "False", "For", "Fun", "If", "Nil", "Or", "Print", "Return", "Super",
            "This", "True", "Var", "While", "EndOfFile",
        ]
    );
    assert_eq!(tokens.last().unwrap().lexeme(), "");
    assert!(matches!(tokens[0].type_info(), TokenType::LeftParen));
}

#[test]
fn numbers_and_strings_carry_payloads() {
    let (tokens, _) = scan("12.5 7. \"hi\nthere\" x");
    assert!(matches!(&tokens[0].token_type, TokenType::Number(t) if t == "12.5"));
    assert!(matches!(&tokens[1].token_type, TokenType::Number(t) if t == "7"));
    assert!(matches!(tokens[2].token_type, TokenType::Dot));
    assert!(matches!(&tokens[3].token_type, TokenType::Str(t) if t == "hi\nthere"));
    assert_eq!(tokens[3].lexeme, "\"hi\nthere\"");
    assert_eq!(tokens[3].line(), 1);
    assert_eq!(tokens[4].line(), 2);
}

#[test]
fn lexical_errors_do_not_stop_the_scan() {
    let (tokens, diag) = scan("1 @ 2 # \"open");
    assert_eq!(diag.reports().len(), 3);
    assert!(matches!(diag.reports()[0].kind, StaticErrorKind::UnexpectedCharacter));
    assert!(matches!(diag.reports()[1].kind, StaticErrorKind::UnexpectedCharacter));
    assert!(matches!(diag.reports()[2].kind, StaticErrorKind::UnterminatedString));
    assert_eq!(diag.reports()[0].message(), "Unexpected character.");
    assert_eq!(diag.reports()[2].message(), "Unterminated string.");
    assert_eq!(tokens.len(), 3);
    assert!(had_error(&diag));
}

#[test]
fn comments_are_skipped_and_count_lines() {
    let (tokens, diag) = scan("/* a\n /* b\n */ c\n */ x // y\n z");
    assert!(!had_error(&diag));
    assert_eq!(tokens.len(), 3);
    assert_eq!(tokens[0].lexeme, "x");
    assert_eq!(tokens[0].line, 4);
    assert_eq!(tokens[1].lexeme, "z");
    assert_eq!(tokens[1].line, 5);
}

#[test]
fn syntax_error_messages() {
    let (_, diag) = parse("(1 + 2");
    assert!(matches!(diag.reports()[0].kind, StaticErrorKind::ExpectRightParen));
    assert_eq!(diag.reports()[0].message(), "Expect ')' after expression.");
    let (_, diag) = parse("print 1");
    assert!(matches!(diag.reports()[0].kind, StaticErrorKind::ExpectSemicolonAfterValue));
    let (_, diag) = parse("1 + 2");
    assert!(matches!(diag.reports()[0].kind, StaticErrorKind::ExpectSemicolonAfterExpression));
    let (_, diag) = parse("var x 1;");
    assert!(matches!(diag.reports()[0].kind, StaticErrorKind::ExpectEqualAfterName));
    let (_, diag) = parse("var x = 1");
    assert!(matches!(diag.reports()[0].kind, StaticErrorKind::ExpectSemicolonAfterDeclaration));
    let (_, diag) = parse("true ? 1;");
    assert!(matches!(diag.reports()[0].kind, StaticErrorKind::ExpectColon));
    let (_, diag) = parse("* 2;");
    assert_eq!(diag.reports()[0].message(), "Unexpected token: *.");
    assert_eq!(diag.reports().len(), 1);
}

#[test]
fn precedence_of_operators() {
    let e = only_expression("-1 + 2 * 3 == !(4 < 5) / 6;");
    assert_eq!(e.print(), "(== (+ (- 1) (* 2 3)) (/ (! (group (< 4 5))) 6))");
}

#[test]
fn strings_concatenate_and_compare() {
    assert_value(&eval("\"ab\" + \"cd\";").unwrap(), &LoxValue::Str("abcd".to_string()));
    assert_value(&eval("\"ab\" == \"ab\";").unwrap(), &LoxValue::Bool(true));
    assert_value(&eval("nil == nil;").unwrap(), &LoxValue::Bool(true));
    assert_value(&eval("true == false;").unwrap(), &LoxValue::Bool(false));
    assert_value(&eval("2 < 3;").unwrap(), &LoxValue::Bool(true));
    assert_value(&eval("3 <= 2;").unwrap(), &LoxValue::Bool(false));
    assert_value(&eval("-(1.5);").unwrap(), &num(-1.5));
    assert_value(&eval("nil ? 1 : 2;").unwrap(), &num(2.0));
}

#[test]
fn comparison_needs_numbers() {
    let e = eval("\"a\" < \"b\";").unwrap_err();
    assert_eq!(e.error_type, RuntimeErrorType::OperandMustBeNumber);
    let e = eval("-\"a\";").unwrap_err();
    assert_eq!(e.error_type, RuntimeErrorType::OperandMustBeNumber);
    assert_eq!(e.line, 1);
}

#[test]
fn undefined_variable_stops_the_run() {
    let (stmts, mut diag) = parse("print 1;\nprint y;\nprint 2;");
    let mut env = Environment::new();
    let printed = interpret(&stmts, &mut env, &float_host, &mut diag);
    assert_eq!(printed.len(), 1);
    assert!(had_runtime_error(&diag));
    let err = &diag.runtime_errors()[0];
    assert_eq!(err.error_type, RuntimeErrorType::UndefinedVariable);
    assert_eq!(err.line, 2);
    assert_eq!(err.cause, "y");
}

#[test]
fn redeclaration_overwrites() {
    let (printed, _, env) = run("var a = 1; var a = \"two\"; print a;");
    assert_value(&printed[0], &LoxValue::Str("two".to_string()));
    let (tokens, _) = scan("a b");
    assert_value(&env.get(&tokens[0]).unwrap(), &LoxValue::Str("two".to_string()));
    assert!(matches!(env.get(&tokens[1]), Err(EnvironmentError::UndefinedVariable)));
}

#[test]
fn environment_define_and_get() {
    let mut env = Environment::new();
    env.define("k".to_string(), LoxValue::Bool(true));
    let t = Token::new(TokenType::Identifier("k".to_string()), "k".to_string(), 3);
    assert_value(&env.get(&t).unwrap(), &LoxValue::Bool(true));
}

#[test]
fn display_of_values() {
    assert_eq!(LoxValue::Nil.display().unwrap(), "nil");
    assert_eq!(LoxValue::Bool(false).display().unwrap(), "false");
    assert_eq!(LoxValue::Str("s".to_string()).display().unwrap(), "s");
    assert!(num(1.0).display().is_none());
}

#[test]
fn diagnostics_are_sticky() {
    let mut diag = Diagnostics::new();
    assert!(!had_error(&diag));
    assert!(!had_runtime_error(&diag));
    rust_lox::errors::error(&mut diag, 4, StaticErrorKind::UnexpectedCharacter);
    rust_lox::errors::runtime_error(
        &mut diag,
        RuntimeError::new(2, "-".to_string(), RuntimeErrorType::OperandMustBeNumber),
    );
    assert!(had_error(&diag));
    assert!(had_runtime_error(&diag));
    let r: &Report = &diag.reports()[0];
    assert_eq!(r.line, 4);
}

#[test]
fn printing_literals_and_end_of_input() {
    let e = only_expression("\"s\" + nil;");
    assert_eq!(e.print(), "(+ \"s\" nil)");
    let (stmts, diag) = parse("print");
    assert!(stmts.is_empty());
    assert!(matches!(diag.reports()[0].kind, StaticErrorKind::ExpectSemicolonAfterValue));
    assert_eq!(RunnerError::FailedToRunFile.message(), "Failed to run file!");
}

#[test]
fn runtime_error_and_token_text() {
    let e = eval("1 + nil;").unwrap_err();
    assert_eq!(e.description(), "Operands must both be either numbers or strings: +");
    let e = eval("-true;").unwrap_err();
    assert_eq!(e.description(), "Operand must be a number: -");
    let (tokens, _) = scan("abc");
    assert_eq!(tokens[0].text(), "abc");
    assert_eq!(tokens[1].text(), "EndOfFile");
}

#[test]
fn identifiers_accept_unicode_letters() {
    let (tokens, diag) = scan("é café _x1 ñandú2");
    // An underscore starts an identifier but does not continue one.
    assert!(!had_error(&diag));
    assert!(matches!(&tokens[0].token_type, TokenType::Identifier(n) if n == "é"));
    assert!(matches!(&tokens[1].token_type, TokenType::Identifier(n) if n == "café"));
    assert!(matches!(&tokens[2].token_type, TokenType::Identifier(n) if n == "_x1"));
    assert!(matches!(&tokens[3].token_type, TokenType::Identifier(n) if n == "ñandú2"));
    assert_eq!(tokens.len(), 5);
}

#[test]
fn non_alphabetic_symbols_are_unexpected() {
    let (tokens, diag) = scan("a€b");
    assert_eq!(diag.reports().len(), 1);
    assert!(matches!(diag.reports()[0].kind, StaticErrorKind::UnexpectedCharacter));
    assert_eq!(tokens.len(), 3);
    assert_eq!(tokens[0].lexeme, "a");
    assert_eq!(tokens[1].lexeme, "b");
}

#[test]
fn underscore_does_not_continue_an_identifier() {
    let (tokens, diag) = scan("a_b and_1");
    assert!(!had_error(&diag));
    assert_eq!(
        kinds(&tokens),
        vec![
            "Identifier(\"a\")", "Identifier(\"_b\")", "And", "Identifier(\"_1\")",
            "EndOfFile",
        ]
    );
}

#[test]
fn redefinition_replaces_the_binding() {
    let mut env = Environment::new();
    env.define("v".to_string(), LoxValue::Nil);
    env.define("w".to_string(), LoxValue::Bool(false));
    env.define("v".to_string(), LoxValue::Bool(true));
    let v = Token::new(TokenType::Identifier("v".to_string()), "v".to_string(), 1);
    let w = Token::new(TokenType::Identifier("w".to_string()), "w".to_string(), 1);
    assert_value(&env.get(&v).unwrap(), &LoxValue::Bool(true));
    assert_value(&env.get(&w).unwrap(), &LoxValue::Bool(false));
}
