use coda::lexer::{scan, LexError, LexErrorKind};
use coda::num::Number;
use coda::parser::{parse, ParseError};
use coda::token::TokenKind;
use coda::ast::{Expr, Stmt, ValueLiteral};
use coda::utils::{is_alpha, is_alphanumeric, slice_to_string, trim_quotes};
use coda::cli::{Cli, Commands, Arguments};

fn kinds(src: &str) -> Vec<TokenKind> {
    scan(src).unwrap().into_iter().map(|t| t.kind).collect()
}

#[test]
fn scanning_twice_is_deterministic() {
    let src = "let x = 1.5 // comment\nfn f(a, b) { return a + b }\n\"hi\"";
    let first = scan(src).unwrap();
    let second = scan(src).unwrap();
    assert_eq!(first, second);
}

#[test]
fn scan_simple_let() {
    let ks = kinds("let x = 1");
    assert_eq!(
        ks,
        vec![
            TokenKind::Let,
            TokenKind::Identifier("x".to_string()),
            TokenKind::Equal,
            TokenKind::Number(Number::Finite { neg: false, mag: 1_000_000 }),
            TokenKind::Eof,
        ]
    );
}

#[test]
fn scan_fractional_number() {
    let ks = kinds("2.25");
    assert_eq!(
        ks,
        vec![
            TokenKind::Number(Number::Finite { neg: false, mag: 2_250_000 }),
            TokenKind::Eof,
        ]
    );
}

#[test]
fn scan_operators_and_compounds() {
    let ks = kinds("+ += - -= * *= / /= == = >= > <= <");
    assert_eq!(
        ks,
        vec![
            TokenKind::Plus,
            TokenKind::PlusEqual,
            TokenKind::Minus,
            TokenKind::MinusEqual,
            TokenKind::Star,
            TokenKind::StarEqual,
            TokenKind::Slash,
            TokenKind::SlashEqual,
            TokenKind::EqualEqual,
            TokenKind::Equal,
            TokenKind::GreaterEqual,
            TokenKind::Greater,
            TokenKind::LessEqual,
            TokenKind::Less,
            TokenKind::Eof,
        ]
    );
}

#[test]
fn scan_string_and_line_counting() {
    let toks = scan("\n\"a\nb\" x").unwrap();
    assert_eq!(toks[0].kind, TokenKind::Str("a\nb".to_string()));
    // the string closes on line 3; the token carries the line after it
    assert_eq!(toks[0].line, 3);
    assert_eq!(toks[1].kind, TokenKind::Identifier("x".to_string()));
    assert_eq!(toks[1].line, 3);
}

#[test]
fn scan_comment_is_skipped() {
    let ks = kinds("1 // all of this vanishes\n2");
    assert_eq!(
        ks,
        vec![
            TokenKind::Number(Number::Finite { neg: false, mag: 1_000_000 }),
            TokenKind::Number(Number::Finite { neg: false, mag: 2_000_000 }),
            TokenKind::Eof,
        ]
    );
}

#[test]
fn scan_unexpected_character() {
    let err = scan("let $ = 1").unwrap_err();
    assert_eq!(err, LexError { kind: LexErrorKind::UnexpectedChar, line: 1 });
    let err2 = scan("\n\n$").unwrap_err();
    assert_eq!(err2.line, 3);
}

#[test]
fn scan_unterminated_string() {
    let err = scan("\"never closed").unwrap_err();
    assert_eq!(err.kind, LexErrorKind::UnterminatedString);
}

#[test]
fn keywords_are_recognized() {
    let ks = kinds("let const fn if else while return true false null import export letx");
    assert_eq!(ks[0], TokenKind::Let);
    assert_eq!(ks[1], TokenKind::Const);
    assert_eq!(ks[2], TokenKind::Fn);
    assert_eq!(ks[3], TokenKind::If);
    assert_eq!(ks[4], TokenKind::Else);
    assert_eq!(ks[5], TokenKind::While);
    assert_eq!(ks[6], TokenKind::Return);
    assert_eq!(ks[7], TokenKind::True);
    assert_eq!(ks[8], TokenKind::False);
    assert_eq!(ks[9], TokenKind::Null);
    assert_eq!(ks[10], TokenKind::Import);
    assert_eq!(ks[11], TokenKind::Export);
    assert_eq!(ks[12], TokenKind::Identifier("letx".to_string()));
}

#[test]
fn parse_let_statement() {
    let stmts = parse(scan("let x = 1").unwrap()).unwrap();
    assert_eq!(
        stmts,
        vec![Stmt::Let {
            name: "x".to_string(),
            value: Expr::Literal(ValueLiteral::Number(Number::Finite {
                neg: false,
                mag: 1_000_000
            })),
            is_const: false,
            is_exported: false,
        }]
    );
}

#[test]
fn parse_export_const() {
    let stmts = parse(scan("export const y = true").unwrap()).unwrap();
    match &stmts[0] {
        Stmt::Let { name, is_const, is_exported, .. } => {
            assert_eq!(name, "y");
            assert!(*is_const);
            assert!(*is_exported);
        }
        other => panic!("unexpected statement {:?}", other),
    }
}

#[test]
fn parse_precedence() {
    // 1 + 2 * 3 parses as 1 + (2 * 3)
    let stmts = parse(scan("1 + 2 * 3").unwrap()).unwrap();
    match &stmts[0] {
        Stmt::Expr(Expr::Binary { operator, right, .. }) => {
            assert_eq!(*operator, TokenKind::Plus);
            match &**right {
                Expr::Binary { operator, .. } => assert_eq!(*operator, TokenKind::Star),
                other => panic!("unexpected rhs {:?}", other),
            }
        }
        other => panic!("unexpected statement {:?}", other),
    }
}

#[test]
fn parse_compound_assignment_desugars() {
    let stmts = parse(scan("x += 2").unwrap()).unwrap();
    match &stmts[0] {
        Stmt::Expr(Expr::Assign { name, value }) => {
            assert_eq!(name, "x");
            match &**value {
                Expr::Binary { left, operator, .. } => {
                    assert_eq!(*operator, TokenKind::Plus);
                    assert_eq!(**left, Expr::Variable("x".to_string()));
                }
                other => panic!("unexpected value {:?}", other),
            }
        }
        other => panic!("unexpected statement {:?}", other),
    }
}

#[test]
fn parse_invalid_assignment_target() {
    let err = parse(scan("1 = 2").unwrap()).unwrap_err();
    assert_eq!(err, ParseError::InvalidAssignmentTarget);
}

#[test]
fn parse_missing_identifier() {
    let err = parse(scan("let = 1").unwrap()).unwrap_err();
    assert_eq!(err, ParseError::ExpectedIdentifier);
}

#[test]
fn parse_dotted_import() {
    let stmts = parse(scan("import std.math").unwrap()).unwrap();
    assert_eq!(stmts, vec![Stmt::Import("std.math".to_string())]);
}

#[test]
fn parse_string_import() {
    let stmts = parse(scan("import \"lib/util\"").unwrap()).unwrap();
    assert_eq!(stmts, vec![Stmt::Import("lib/util".to_string())]);
}

#[test]
fn parse_function_declaration() {
    let stmts = parse(scan("fn add2(a, b) { return a + b }").unwrap()).unwrap();
    match &stmts[0] {
        Stmt::Function { name, params, body, is_exported } => {
            assert_eq!(name, "add2");
            assert_eq!(params, &vec!["a".to_string(), "b".to_string()]);
            assert_eq!(body.len(), 1);
            assert!(!*is_exported);
        }
        other => panic!("unexpected statement {:?}", other),
    }
}

#[test]
fn parse_unclosed_group_is_an_error() {
    // an unclosed group right at the end of input is reported, not looped on
    let err = parse(scan("(").unwrap()).unwrap_err();
    assert_eq!(err, ParseError::UnexpectedToken);
}

#[test]
fn utils_classify_bytes() {
    assert!(is_alpha(b'a'));
    assert!(is_alpha(b'Z'));
    assert!(is_alpha(b'_'));
    assert!(!is_alpha(b'0'));
    assert!(is_alphanumeric(b'0'));
    assert!(!is_alphanumeric(b'-'));
}

#[test]
fn utils_strings() {
    assert_eq!(slice_to_string(b"abc"), "abc".to_string());
    assert_eq!(slice_to_string(&[0xffu8, 0xfe]), String::new());
    assert_eq!(trim_quotes("\"quoted\""), "quoted");
    assert_eq!(trim_quotes("plain"), "plain");
    assert_eq!(trim_quotes("\"half"), "half");
}

#[test]
fn cli_model_names_the_file() {
    let run = Cli { command: Commands::Run(Arguments { file: "main.coda".to_string() }) };
    assert_eq!(run.file_to_run(), Some(&"main.coda".to_string()));
    let repl = Cli { command: Commands::Repl };
    assert_eq!(repl.file_to_run(), None);
}
