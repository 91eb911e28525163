use vstd::prelude::*;
use vstd::string::StringExecFns;
use crate::token::{Token, TokenKind, TokenModel, TokenKindModel, tokens_model};
use crate::ast::{Expr, Stmt, ValueLiteral, ExprModel, StmtModel, LiteralModel};

verus! {

/// A parsing failure: the parse aborts at the first unexpected token.
#[derive(Debug, Clone, Copy, PartialEq, Eq, Structural)]
pub enum ParseError {
    ExpectedIdentifierAfterDot,
    ExpectedModulePath,
    ExpectedRBraceAfterBlock,
    ExpectedLBraceAfterCondition,
    ExpectedIdentifier,
    ExpectedEqualAfterName,
    ExpectedFunctionName,
    ExpectedParameterName,
    ExpectedLParenAfterFnName,
    ExpectedRParenAfterParams,
    ExpectedLBraceBeforeBody,
    ExpectedLBraceAfterElse,
    ExpectedRParenAfterArgs,
    ExpectedRParen,
    ExpectedRBracket,
    UnexpectedToken,
    InvalidAssignmentTarget,
}

/// Whether two token kinds agree, payloads ignored (how the parser
/// compares an input token against an expected kind).
pub open spec fn same_kind(a: TokenKindModel, b: TokenKindModel) -> bool {
    match (a, b) {
        (TokenKindModel::Number(_), TokenKindModel::Number(_)) => true,
        (TokenKindModel::Str(_), TokenKindModel::Str(_)) => true,
        (TokenKindModel::Identifier(_), TokenKindModel::Identifier(_)) => true,
        (TokenKindModel::Plus, TokenKindModel::Plus) => true,
        (TokenKindModel::Minus, TokenKindModel::Minus) => true,
        (TokenKindModel::Star, TokenKindModel::Star) => true,
        (TokenKindModel::Slash, TokenKindModel::Slash) => true,
        (TokenKindModel::Equal, TokenKindModel::Equal) => true,
        (TokenKindModel::PlusEqual, TokenKindModel::PlusEqual) => true,
        (TokenKindModel::MinusEqual, TokenKindModel::MinusEqual) => true,
        (TokenKindModel::StarEqual, TokenKindModel::StarEqual) => true,
        (TokenKindModel::SlashEqual, TokenKindModel::SlashEqual) => true,
        (TokenKindModel::EqualEqual, TokenKindModel::EqualEqual) => true,
        (TokenKindModel::BangEqual, TokenKindModel::BangEqual) => true,
        (TokenKindModel::Greater, TokenKindModel::Greater) => true,
        (TokenKindModel::Less, TokenKindModel::Less) => true,
        (TokenKindModel::GreaterEqual, TokenKindModel::GreaterEqual) => true,
        (TokenKindModel::LessEqual, TokenKindModel::LessEqual) => true,
        (TokenKindModel::LParen, TokenKindModel::LParen) => true,
        (TokenKindModel::RParen, TokenKindModel::RParen) => true,
        (TokenKindModel::LBrace, TokenKindModel::LBrace) => true,
        (TokenKindModel::RBrace, TokenKindModel::RBrace) => true,
        (TokenKindModel::LBracket, TokenKindModel::LBracket) => true,
        (TokenKindModel::RBracket, TokenKindModel::RBracket) => true,
        (TokenKindModel::Comma, TokenKindModel::Comma) => true,
        (TokenKindModel::Dot, TokenKindModel::Dot) => true,
        (TokenKindModel::Semicolon, TokenKindModel::Semicolon) => true,
        (TokenKindModel::Let, TokenKindModel::Let) => true,
        (TokenKindModel::Const, TokenKindModel::Const) => true,
        (TokenKindModel::Fn, TokenKindModel::Fn) => true,
        (TokenKindModel::If, TokenKindModel::If) => true,
        (TokenKindModel::Else, TokenKindModel::Else) => true,
        (TokenKindModel::While, TokenKindModel::While) => true,
        (TokenKindModel::Return, TokenKindModel::Return) => true,
        (TokenKindModel::Import, TokenKindModel::Import) => true,
        (TokenKindModel::Export, TokenKindModel::Export) => true,
        (TokenKindModel::True, TokenKindModel::True) => true,
        (TokenKindModel::False, TokenKindModel::False) => true,
        (TokenKindModel::Null, TokenKindModel::Null) => true,
        (TokenKindModel::Eof, TokenKindModel::Eof) => true,
        _ => false,
    }
}

/// Whether the parse is done at `p`: past the end, or at the end-of-stream
/// token.
pub open spec fn sp_at_end(t: Seq<TokenModel>, p: int) -> bool {
    p >= t.len() || t[p].kind is Eof
}

/// Whether `p` can be advanced from or read behind: every parsing
/// position except position zero of an immediately-ending stream.
pub open spec fn pos_ok(t: Seq<TokenModel>, p: int) -> bool {
    0 <= p <= t.len() && (p < t.len() || p >= 1)
}

/// Reading one token: past the end nothing moves and the previous token
/// is read again, as the scanner's end-of-stream token guards the stream.
pub open spec fn sp_advance(t: Seq<TokenModel>, p: int) -> (TokenModel, int)
    recommends
        pos_ok(t, p),
        p >= 1 || !sp_at_end(t, p),
{
    if sp_at_end(t, p) {
        (t[p - 1], p)
    } else {
        (t[p], p + 1)
    }
}

/// Whether the token at `p` (if any) has kind `k`.
pub open spec fn sp_check(t: Seq<TokenModel>, p: int, k: TokenKindModel) -> bool {
    !sp_at_end(t, p) && same_kind(t[p].kind, k)
}

/// Demand kind `k` at `p`: the next position, or the given error.
pub open spec fn sp_consume(t: Seq<TokenModel>, p: int, k: TokenKindModel, e: ParseError) -> Result<
    int,
    ParseError,
> {
    if sp_check(t, p, k) {
        Ok(p + 1)
    } else {
        Err(e)
    }
}

/// A primary expression: a literal, a variable, a function literal, a
/// parenthesized expression, or an array literal. A guard against a
/// grouping or array that would re-read the end of the stream turns what
/// would otherwise never terminate into the unexpected-token error.
#[verifier::opaque]
pub open spec fn sp_primary(t: Seq<TokenModel>, p: int) -> Result<(ExprModel, int), ParseError>
    decreases t.len() - p, 1int,
{
    let (tok, p1) = sp_advance(t, p);
    match tok.kind {
        TokenKindModel::Number(n) => Ok((ExprModel::Literal(LiteralModel::Number(n)), p1)),
        TokenKindModel::Str(s) => Ok((ExprModel::Literal(LiteralModel::Str(s)), p1)),
        TokenKindModel::True => Ok((ExprModel::Literal(LiteralModel::Bool(true)), p1)),
        TokenKindModel::False => Ok((ExprModel::Literal(LiteralModel::Bool(false)), p1)),
        TokenKindModel::Null => Ok((ExprModel::Literal(LiteralModel::Null), p1)),
        TokenKindModel::Identifier(s) => Ok((ExprModel::Variable(s), p1)),
        TokenKindModel::Fn => {
            let (name, p2) = if !sp_at_end(t, p1) && t[p1].kind is Identifier {
                (t[p1].kind->Identifier_0, p1 + 1)
            } else {
                (Seq::<char>::empty(), p1)
            };
            match sp_consume(t, p2, TokenKindModel::LParen, ParseError::ExpectedLParenAfterFnName) {
                Err(e) => Err(e),
                Ok(p3) => {
                    let ps = if sp_check(t, p3, TokenKindModel::RParen) {
                        Ok((Seq::<Seq<char>>::empty(), p3))
                    } else {
                        if p < p3 <= t.len() {
                            sp_params(t, p3)
                        } else {
                            Err(ParseError::ExpectedParameterName)
                        }
                    };
                    match ps {
                        Err(e) => Err(e),
                        Ok((params, p4)) => match sp_consume(
                            t,
                            p4,
                            TokenKindModel::RParen,
                            ParseError::ExpectedRParenAfterParams,
                        ) {
                            Err(e) => Err(e),
                            Ok(p5) => match sp_consume(
                                t,
                                p5,
                                TokenKindModel::LBrace,
                                ParseError::ExpectedLBraceBeforeBody,
                            ) {
                                Err(e) => Err(e),
                                Ok(p6) => {
                                    if p < p6 <= t.len() {
                                        match sp_block(t, p6) {
                                            Err(e) => Err(e),
                                            Ok((body, p7)) => Ok(
                                                (ExprModel::Function { name, params, body }, p7),
                                            ),
                                        }
                                    } else {
                                        Err(ParseError::UnexpectedToken)
                                    }
                                },
                            },
                        },
                    }
                },
            }
        },
        TokenKindModel::LParen => {
            if p < p1 {
                match sp_expression(t, p1) {
                    Err(e) => Err(e),
                    Ok((e, p2)) => match sp_consume(
                        t,
                        p2,
                        TokenKindModel::RParen,
                        ParseError::ExpectedRParen,
                    ) {
                        Err(er) => Err(er),
                        Ok(p3) => Ok((e, p3)),
                    },
                }
            } else {
                Err(ParseError::UnexpectedToken)
            }
        },
        TokenKindModel::LBracket => {
            if p < p1 {
                if sp_check(t, p1, TokenKindModel::RBracket) {
                    Ok((ExprModel::Array(Seq::empty()), p1 + 1))
                } else {
                    match sp_args(t, p1) {
                        Err(e) => Err(e),
                        Ok((els, p2)) => match sp_consume(
                            t,
                            p2,
                            TokenKindModel::RBracket,
                            ParseError::ExpectedRBracket,
                        ) {
                            Err(er) => Err(er),
                            Ok(p3) => Ok((ExprModel::Array(els), p3)),
                        },
                    }
                }
            } else {
                Err(ParseError::UnexpectedToken)
            }
        },
        _ => Err(ParseError::UnexpectedToken),
    }
}

/// A comma-separated parameter-name list (at least one name).
#[verifier::opaque]
pub open spec fn sp_params(t: Seq<TokenModel>, p: int) -> Result<(Seq<Seq<char>>, int), ParseError>
    decreases t.len() - p, 1int,
{
    let (tok, p1) = sp_advance(t, p);
    match tok.kind {
        TokenKindModel::Identifier(s) => {
            if sp_check(t, p1, TokenKindModel::Comma) {
                match sp_params(t, p1 + 1) {
                    Err(e) => Err(e),
                    Ok((rest, p2)) => Ok((seq![s] + rest, p2)),
                }
            } else {
                Ok((seq![s], p1))
            }
        },
        _ => Err(ParseError::ExpectedParameterName),
    }
}

/// A comma-separated expression list (at least one expression); used for
/// call arguments and array elements.
#[verifier::opaque]
pub open spec fn sp_args(t: Seq<TokenModel>, p: int) -> Result<(Seq<ExprModel>, int), ParseError>
    decreases t.len() - p, 10int,
{
    match sp_expression(t, p) {
        Err(e) => Err(e),
        Ok((e, p1)) => {
            if sp_check(t, p1, TokenKindModel::Comma) {
                if p <= p1 {
                    match sp_args(t, p1 + 1) {
                        Err(er) => Err(er),
                        Ok((rest, p2)) => Ok((seq![e] + rest, p2)),
                    }
                } else {
                    Err(ParseError::UnexpectedToken)
                }
            } else {
                Ok((seq![e], p1))
            }
        },
    }
}

/// Zero or more trailing argument lists: each `( ... )` wraps the callee
/// in another call.
#[verifier::opaque]
pub open spec fn sp_call_rest(t: Seq<TokenModel>, p: int, callee: ExprModel) -> Result<
    (ExprModel, int),
    ParseError,
>
    decreases t.len() - p, 1int,
{
    if sp_check(t, p, TokenKindModel::LParen) {
        let p1 = p + 1;
        if sp_check(t, p1, TokenKindModel::RParen) {
            sp_call_rest(t, p1 + 1, ExprModel::Call { callee: Box::new(callee), args: Seq::empty() })
        } else {
            match sp_args(t, p1) {
                Err(e) => Err(e),
                Ok((args, p2)) => match sp_consume(
                    t,
                    p2,
                    TokenKindModel::RParen,
                    ParseError::ExpectedRParenAfterArgs,
                ) {
                    Err(er) => Err(er),
                    Ok(p3) => {
                        if p < p3 <= t.len() {
                            sp_call_rest(t, p3, ExprModel::Call { callee: Box::new(callee), args })
                        } else {
                            Err(ParseError::UnexpectedToken)
                        }
                    },
                },
            }
        }
    } else {
        Ok((callee, p))
    }
}

/// A call chain: a primary expression followed by its argument lists.
#[verifier::opaque]
pub open spec fn sp_call(t: Seq<TokenModel>, p: int) -> Result<(ExprModel, int), ParseError>
    decreases t.len() - p, 2int,
{
    match sp_primary(t, p) {
        Err(e) => Err(e),
        Ok((e, p1)) => {
            if p <= p1 <= t.len() {
                sp_call_rest(t, p1, e)
            } else {
                Ok((e, p1))
            }
        },
    }
}

/// The unary level: nothing is parsed here beyond the call chain (the
/// grammar has no prefix operators).
#[verifier::opaque]
pub open spec fn sp_unary(t: Seq<TokenModel>, p: int) -> Result<(ExprModel, int), ParseError>
    decreases t.len() - p, 3int,
{
    sp_call(t, p)
}

/// Left-associative repetition of `*` and `/` onto `acc`.
#[verifier::opaque]
pub open spec fn sp_factor_rest(t: Seq<TokenModel>, p: int, acc: ExprModel) -> Result<
    (ExprModel, int),
    ParseError,
>
    decreases t.len() - p, 3int,
{
    if sp_check(t, p, TokenKindModel::Star) || sp_check(t, p, TokenKindModel::Slash) {
        let op = t[p].kind;
        match sp_unary(t, p + 1) {
            Err(e) => Err(e),
            Ok((rhs, p2)) => {
                let joined = ExprModel::Binary {
                    left: Box::new(acc),
                    operator: op,
                    right: Box::new(rhs),
                };
                if p < p2 <= t.len() {
                    sp_factor_rest(t, p2, joined)
                } else {
                    Ok((joined, p2))
                }
            },
        }
    } else {
        Ok((acc, p))
    }
}

#[verifier::opaque]
pub open spec fn sp_factor(t: Seq<TokenModel>, p: int) -> Result<(ExprModel, int), ParseError>
    decreases t.len() - p, 4int,
{
    match sp_unary(t, p) {
        Err(e) => Err(e),
        Ok((e, p1)) => {
            if p <= p1 <= t.len() {
                sp_factor_rest(t, p1, e)
            } else {
                Ok((e, p1))
            }
        },
    }
}

/// Left-associative repetition of `+` and `-` onto `acc`.
#[verifier::opaque]
pub open spec fn sp_term_rest(t: Seq<TokenModel>, p: int, acc: ExprModel) -> Result<
    (ExprModel, int),
    ParseError,
>
    decreases t.len() - p, 4int,
{
    if sp_check(t, p, TokenKindModel::Plus) || sp_check(t, p, TokenKindModel::Minus) {
        let op = t[p].kind;
        match sp_factor(t, p + 1) {
            Err(e) => Err(e),
            Ok((rhs, p2)) => {
                let joined = ExprModel::Binary {
                    left: Box::new(acc),
                    operator: op,
                    right: Box::new(rhs),
                };
                if p < p2 <= t.len() {
                    sp_term_rest(t, p2, joined)
                } else {
                    Ok((joined, p2))
                }
            },
        }
    } else {
        Ok((acc, p))
    }
}

#[verifier::opaque]
pub open spec fn sp_term(t: Seq<TokenModel>, p: int) -> Result<(ExprModel, int), ParseError>
    decreases t.len() - p, 5int,
{
    match sp_factor(t, p) {
        Err(e) => Err(e),
        Ok((e, p1)) => {
            if p <= p1 <= t.len() {
                sp_term_rest(t, p1, e)
            } else {
                Ok((e, p1))
            }
        },
    }
}

/// Left-associative repetition of the comparison operators onto `acc`.
#[verifier::opaque]
pub open spec fn sp_cmp_rest(t: Seq<TokenModel>, p: int, acc: ExprModel) -> Result<
    (ExprModel, int),
    ParseError,
>
    decreases t.len() - p, 5int,
{
    if sp_check(t, p, TokenKindModel::Greater) || sp_check(t, p, TokenKindModel::GreaterEqual)
        || sp_check(t, p, TokenKindModel::Less) || sp_check(t, p, TokenKindModel::LessEqual) {
        let op = t[p].kind;
        match sp_term(t, p + 1) {
            Err(e) => Err(e),
            Ok((rhs, p2)) => {
                let joined = ExprModel::Binary {
                    left: Box::new(acc),
                    operator: op,
                    right: Box::new(rhs),
                };
                if p < p2 <= t.len() {
                    sp_cmp_rest(t, p2, joined)
                } else {
                    Ok((joined, p2))
                }
            },
        }
    } else {
        Ok((acc, p))
    }
}

#[verifier::opaque]
pub open spec fn sp_comparison(t: Seq<TokenModel>, p: int) -> Result<(ExprModel, int), ParseError>
    decreases t.len() - p, 6int,
{
    match sp_term(t, p) {
        Err(e) => Err(e),
        Ok((e, p1)) => {
            if p <= p1 <= t.len() {
                sp_cmp_rest(t, p1, e)
            } else {
                Ok((e, p1))
            }
        },
    }
}

/// Left-associative repetition of `==` and `!=` onto `acc`.
#[verifier::opaque]
pub open spec fn sp_eq_rest(t: Seq<TokenModel>, p: int, acc: ExprModel) -> Result<
    (ExprModel, int),
    ParseError,
>
    decreases t.len() - p, 6int,
{
    if sp_check(t, p, TokenKindModel::EqualEqual) || sp_check(t, p, TokenKindModel::BangEqual) {
        let op = t[p].kind;
        match sp_comparison(t, p + 1) {
            Err(e) => Err(e),
            Ok((rhs, p2)) => {
                let joined = ExprModel::Binary {
                    left: Box::new(acc),
                    operator: op,
                    right: Box::new(rhs),
                };
                if p < p2 <= t.len() {
                    sp_eq_rest(t, p2, joined)
                } else {
                    Ok((joined, p2))
                }
            },
        }
    } else {
        Ok((acc, p))
    }
}

#[verifier::opaque]
pub open spec fn sp_equality(t: Seq<TokenModel>, p: int) -> Result<(ExprModel, int), ParseError>
    decreases t.len() - p, 7int,
{
    match sp_comparison(t, p) {
        Err(e) => Err(e),
        Ok((e, p1)) => {
            if p <= p1 <= t.len() {
                sp_eq_rest(t, p1, e)
            } else {
                Ok((e, p1))
            }
        },
    }
}

/// The compound-assignment operator that desugars to `op`, if the token
/// at `p` is one.
pub open spec fn compound_op(k: TokenKindModel) -> Option<TokenKindModel> {
    match k {
        TokenKindModel::PlusEqual => Some(TokenKindModel::Plus),
        TokenKindModel::MinusEqual => Some(TokenKindModel::Minus),
        TokenKindModel::StarEqual => Some(TokenKindModel::Star),
        TokenKindModel::SlashEqual => Some(TokenKindModel::Slash),
        _ => None,
    }
}

/// Assignment: only a bare variable may stand on the left; compound
/// assignment desugars to the plain operator at parse time.
#[verifier::opaque]
pub open spec fn sp_assignment(t: Seq<TokenModel>, p: int) -> Result<(ExprModel, int), ParseError>
    decreases t.len() - p, 8int,
{
    match sp_equality(t, p) {
        Err(e) => Err(e),
        Ok((e, p1)) => {
            if p <= p1 < t.len() && sp_check(t, p1, TokenKindModel::Equal) {
                match sp_assignment(t, p1 + 1) {
                    Err(er) => Err(er),
                    Ok((v, p2)) => match e {
                        ExprModel::Variable(name) => Ok(
                            (ExprModel::Assign { name, value: Box::new(v) }, p2),
                        ),
                        _ => Err(ParseError::InvalidAssignmentTarget),
                    },
                }
            } else if p <= p1 < t.len() && compound_op(t[p1].kind) is Some && !sp_at_end(t, p1) {
                let op = compound_op(t[p1].kind)->Some_0;
                match sp_assignment(t, p1 + 1) {
                    Err(er) => Err(er),
                    Ok((v, p2)) => match e {
                        ExprModel::Variable(name) => Ok(
                            (
                                ExprModel::Assign {
                                    name,
                                    value: Box::new(
                                        ExprModel::Binary {
                                            left: Box::new(ExprModel::Variable(name)),
                                            operator: op,
                                            right: Box::new(v),
                                        },
                                    ),
                                },
                                p2,
                            ),
                        ),
                        _ => Err(ParseError::InvalidAssignmentTarget),
                    },
                }
            } else {
                Ok((e, p1))
            }
        },
    }
}

#[verifier::opaque]
pub open spec fn sp_expression(t: Seq<TokenModel>, p: int) -> Result<(ExprModel, int), ParseError>
    decreases t.len() - p, 9int,
{
    sp_assignment(t, p)
}

/// A dotted import path: identifiers joined by periods into one string.
#[verifier::opaque]
pub open spec fn sp_import_path(t: Seq<TokenModel>, p: int, acc: Seq<char>) -> Result<
    (Seq<char>, int),
    ParseError,
>
    decreases t.len() - p, 1int,
{
    if sp_check(t, p, TokenKindModel::Dot) {
        let (tok, p1) = sp_advance(t, p + 1);
        match tok.kind {
            TokenKindModel::Identifier(s) => {
                if p + 1 < p1 {
                    sp_import_path(t, p1, acc + seq!['.'] + s)
                } else {
                    Ok((acc + seq!['.'] + s, p1))
                }
            },
            _ => Err(ParseError::ExpectedIdentifierAfterDot),
        }
    } else {
        Ok((acc, p))
    }
}

/// An import statement body: a string literal path, or a dotted
/// identifier path.
#[verifier::opaque]
pub open spec fn sp_import(t: Seq<TokenModel>, p: int) -> Result<(StmtModel, int), ParseError>
    decreases t.len() - p, 10int,
{
    let (tok, p1) = sp_advance(t, p);
    match tok.kind {
        TokenKindModel::Str(s) => Ok((StmtModel::Import(s), p1)),
        TokenKindModel::Identifier(s) => {
            if p <= p1 <= t.len() {
                match sp_import_path(t, p1, s) {
                    Err(e) => Err(e),
                    Ok((path, p2)) => Ok((StmtModel::Import(path), p2)),
                }
            } else {
                Err(ParseError::ExpectedModulePath)
            }
        },
        _ => Err(ParseError::ExpectedModulePath),
    }
}

/// A let or const statement body (after the keyword).
#[verifier::opaque]
pub open spec fn sp_let(t: Seq<TokenModel>, p: int, is_const: bool, is_exported: bool) -> Result<
    (StmtModel, int),
    ParseError,
>
    decreases t.len() - p, 10int,
{
    let (tok, p1) = sp_advance(t, p);
    match tok.kind {
        TokenKindModel::Identifier(name) => {
            match sp_consume(t, p1, TokenKindModel::Equal, ParseError::ExpectedEqualAfterName) {
                Err(e) => Err(e),
                Ok(p2) => {
                    if p < p2 <= t.len() {
                        match sp_expression(t, p2) {
                            Err(e) => Err(e),
                            Ok((v, p3)) => Ok(
                                (StmtModel::Let { name, value: v, is_const, is_exported }, p3),
                            ),
                        }
                    } else {
                        Err(ParseError::UnexpectedToken)
                    }
                },
            }
        },
        _ => Err(ParseError::ExpectedIdentifier),
    }
}

/// A named function declaration body (after `fn`).
#[verifier::opaque]
pub open spec fn sp_fn_stmt(t: Seq<TokenModel>, p: int, is_exported: bool) -> Result<
    (StmtModel, int),
    ParseError,
>
    decreases t.len() - p, 10int,
{
    let (tok, p1) = sp_advance(t, p);
    match tok.kind {
        TokenKindModel::Identifier(name) => {
            match sp_consume(t, p1, TokenKindModel::LParen, ParseError::ExpectedLParenAfterFnName) {
                Err(e) => Err(e),
                Ok(p2) => {
                    let ps = if sp_check(t, p2, TokenKindModel::RParen) {
                        Ok((Seq::<Seq<char>>::empty(), p2))
                    } else {
                        if p < p2 <= t.len() {
                            sp_params(t, p2)
                        } else {
                            Err(ParseError::ExpectedParameterName)
                        }
                    };
                    match ps {
                        Err(e) => Err(e),
                        Ok((params, p3)) => match sp_consume(
                            t,
                            p3,
                            TokenKindModel::RParen,
                            ParseError::ExpectedRParenAfterParams,
                        ) {
                            Err(e) => Err(e),
                            Ok(p4) => match sp_consume(
                                t,
                                p4,
                                TokenKindModel::LBrace,
                                ParseError::ExpectedLBraceBeforeBody,
                            ) {
                                Err(e) => Err(e),
                                Ok(p5) => {
                                    if p < p5 <= t.len() {
                                        match sp_block(t, p5) {
                                            Err(e) => Err(e),
                                            Ok((body, p6)) => Ok(
                                                (
                                                    StmtModel::Function {
                                                        name,
                                                        params,
                                                        body,
                                                        is_exported,
                                                    },
                                                    p6,
                                                ),
                                            ),
                                        }
                                    } else {
                                        Err(ParseError::UnexpectedToken)
                                    }
                                },
                            },
                        },
                    }
                },
            }
        },
        _ => Err(ParseError::ExpectedFunctionName),
    }
}

/// An if statement body (after `if`): condition, then-block, optional
/// else-block.
#[verifier::opaque]
pub open spec fn sp_if(t: Seq<TokenModel>, p: int) -> Result<(StmtModel, int), ParseError>
    decreases t.len() - p, 10int,
{
    match sp_expression(t, p) {
        Err(e) => Err(e),
        Ok((cond, p1)) => match sp_consume(
            t,
            p1,
            TokenKindModel::LBrace,
            ParseError::ExpectedLBraceAfterCondition,
        ) {
            Err(e) => Err(e),
            Ok(p2) => {
                if p < p2 <= t.len() {
                    match sp_block(t, p2) {
                        Err(e) => Err(e),
                        Ok((then_b, p3)) => {
                            if sp_check(t, p3, TokenKindModel::Else) {
                                match sp_consume(
                                    t,
                                    p3 + 1,
                                    TokenKindModel::LBrace,
                                    ParseError::ExpectedLBraceAfterElse,
                                ) {
                                    Err(e) => Err(e),
                                    Ok(p4) => {
                                        if p < p4 <= t.len() {
                                            match sp_block(t, p4) {
                                                Err(e) => Err(e),
                                                Ok((else_b, p5)) => Ok(
                                                    (
                                                        StmtModel::If {
                                                            condition: cond,
                                                            then_branch: then_b,
                                                            else_branch: Some(else_b),
                                                        },
                                                        p5,
                                                    ),
                                                ),
                                            }
                                        } else {
                                            Err(ParseError::UnexpectedToken)
                                        }
                                    },
                                }
                            } else {
                                Ok(
                                    (
                                        StmtModel::If {
                                            condition: cond,
                                            then_branch: then_b,
                                            else_branch: None,
                                        },
                                        p3,
                                    ),
                                )
                            }
                        },
                    }
                } else {
                    Err(ParseError::UnexpectedToken)
                }
            },
        },
    }
}

/// A while statement body (after `while`): condition and block.
#[verifier::opaque]
pub open spec fn sp_while(t: Seq<TokenModel>, p: int) -> Result<(StmtModel, int), ParseError>
    decreases t.len() - p, 10int,
{
    match sp_expression(t, p) {
        Err(e) => Err(e),
        Ok((cond, p1)) => match sp_consume(
            t,
            p1,
            TokenKindModel::LBrace,
            ParseError::ExpectedLBraceAfterCondition,
        ) {
            Err(e) => Err(e),
            Ok(p2) => {
                if p < p2 <= t.len() {
                    match sp_block(t, p2) {
                        Err(e) => Err(e),
                        Ok((body, p3)) => Ok((StmtModel::While { condition: cond, body }, p3)),
                    }
                } else {
                    Err(ParseError::UnexpectedToken)
                }
            },
        },
    }
}

/// A return statement body (after `return`): a bare return right before a
/// closing brace, or a returned expression.
#[verifier::opaque]
pub open spec fn sp_return(t: Seq<TokenModel>, p: int) -> Result<(StmtModel, int), ParseError>
    decreases t.len() - p, 10int,
{
    if sp_check(t, p, TokenKindModel::RBrace) {
        Ok((StmtModel::Return(None), p))
    } else {
        match sp_expression(t, p) {
            Err(e) => Err(e),
            Ok((v, p1)) => Ok((StmtModel::Return(Some(v)), p1)),
        }
    }
}

/// One statement: a declaration (optionally exported), a control
/// statement, a block, or an expression statement.
#[verifier::opaque]
pub open spec fn sp_statement(t: Seq<TokenModel>, p: int) -> Result<(StmtModel, int), ParseError>
    decreases t.len() - p, 11int,
{
    let (is_exported, p0) = if sp_check(t, p, TokenKindModel::Export) {
        (true, p + 1)
    } else {
        (false, p)
    };
    if sp_check(t, p0, TokenKindModel::Let) {
        sp_let(t, p0 + 1, false, is_exported)
    } else if sp_check(t, p0, TokenKindModel::Const) {
        sp_let(t, p0 + 1, true, is_exported)
    } else if sp_check(t, p0, TokenKindModel::Fn) {
        sp_fn_stmt(t, p0 + 1, is_exported)
    } else if sp_check(t, p0, TokenKindModel::Import) {
        sp_import(t, p0 + 1)
    } else if sp_check(t, p0, TokenKindModel::If) {
        sp_if(t, p0 + 1)
    } else if sp_check(t, p0, TokenKindModel::While) {
        sp_while(t, p0 + 1)
    } else if sp_check(t, p0, TokenKindModel::Return) {
        sp_return(t, p0 + 1)
    } else if sp_check(t, p0, TokenKindModel::LBrace) {
        match sp_block(t, p0 + 1) {
            Err(e) => Err(e),
            Ok((b, p1)) => Ok((StmtModel::Block(b), p1)),
        }
    } else {
        match sp_expression(t, p0) {
            Err(e) => Err(e),
            Ok((e, p1)) => Ok((StmtModel::Expr(e), p1)),
        }
    }
}

/// The statements of a brace-delimited block, up to and including the
/// closing brace.
#[verifier::opaque]
pub open spec fn sp_block(t: Seq<TokenModel>, p: int) -> Result<(Seq<StmtModel>, int), ParseError>
    decreases t.len() - p, 12int,
{
    if !sp_check(t, p, TokenKindModel::RBrace) && !sp_at_end(t, p) {
        match sp_statement(t, p) {
            Err(e) => Err(e),
            Ok((s, p1)) => {
                if p < p1 <= t.len() {
                    match sp_block(t, p1) {
                        Err(e) => Err(e),
                        Ok((rest, p2)) => Ok((seq![s] + rest, p2)),
                    }
                } else {
                    Err(ParseError::UnexpectedToken)
                }
            },
        }
    } else {
        match sp_consume(t, p, TokenKindModel::RBrace, ParseError::ExpectedRBraceAfterBlock) {
            Err(e) => Err(e),
            Ok(p1) => Ok((Seq::empty(), p1)),
        }
    }
}

/// A whole program: statements until the end of the token stream.
#[verifier::opaque]
pub open spec fn sp_parse(t: Seq<TokenModel>, p: int) -> Result<(Seq<StmtModel>, int), ParseError>
    decreases t.len() - p, 13int,
{
    if sp_at_end(t, p) {
        Ok((Seq::empty(), p))
    } else {
        match sp_statement(t, p) {
            Err(e) => Err(e),
            Ok((s, p1)) => {
                if p < p1 <= t.len() {
                    match sp_parse(t, p1) {
                        Err(e) => Err(e),
                        Ok((rest, p2)) => Ok((seq![s] + rest, p2)),
                    }
                } else {
                    Err(ParseError::UnexpectedToken)
                }
            },
        }
    }
}

/// The program a token stream parses to.
pub open spec fn spec_parse(t: Seq<TokenModel>) -> Result<Seq<StmtModel>, ParseError> {
    match sp_parse(t, 0) {
        Ok((ss, _p)) => Ok(ss),
        Err(e) => Err(e),
    }
}

/// A fresh copy of a token, payload and all.
fn clone_token(t: &Token) -> (r: Token)
    ensures
        r@ == t@,
{
    Token { kind: clone_kind(&t.kind), line: t.line }
}

/// A fresh copy of a token kind, payload and all.
pub fn clone_kind(k: &TokenKind) -> (r: TokenKind)
    ensures
        r@ == k@,
{
    match k {
        TokenKind::Number(n) => TokenKind::Number(*n),
        TokenKind::Str(s) => TokenKind::Str(s.clone()),
        TokenKind::Identifier(s) => TokenKind::Identifier(s.clone()),
        TokenKind::Plus => TokenKind::Plus,
        TokenKind::Minus => TokenKind::Minus,
        TokenKind::Star => TokenKind::Star,
        TokenKind::Slash => TokenKind::Slash,
        TokenKind::Equal => TokenKind::Equal,
        TokenKind::PlusEqual => TokenKind::PlusEqual,
        TokenKind::MinusEqual => TokenKind::MinusEqual,
        TokenKind::StarEqual => TokenKind::StarEqual,
        TokenKind::SlashEqual => TokenKind::SlashEqual,
        TokenKind::EqualEqual => TokenKind::EqualEqual,
        TokenKind::BangEqual => TokenKind::BangEqual,
        TokenKind::Greater => TokenKind::Greater,
        TokenKind::Less => TokenKind::Less,
        TokenKind::GreaterEqual => TokenKind::GreaterEqual,
        TokenKind::LessEqual => TokenKind::LessEqual,
        TokenKind::LParen => TokenKind::LParen,
        TokenKind::RParen => TokenKind::RParen,
        TokenKind::LBrace => TokenKind::LBrace,
        TokenKind::RBrace => TokenKind::RBrace,
        TokenKind::LBracket => TokenKind::LBracket,
        TokenKind::RBracket => TokenKind::RBracket,
        TokenKind::Comma => TokenKind::Comma,
        TokenKind::Dot => TokenKind::Dot,
        TokenKind::Semicolon => TokenKind::Semicolon,
        TokenKind::Let => TokenKind::Let,
        TokenKind::Const => TokenKind::Const,
        TokenKind::Fn => TokenKind::Fn,
        TokenKind::If => TokenKind::If,
        TokenKind::Else => TokenKind::Else,
        TokenKind::While => TokenKind::While,
        TokenKind::Return => TokenKind::Return,
        TokenKind::Import => TokenKind::Import,
        TokenKind::Export => TokenKind::Export,
        TokenKind::True => TokenKind::True,
        TokenKind::False => TokenKind::False,
        TokenKind::Null => TokenKind::Null,
        TokenKind::Eof => TokenKind::Eof,
    }
}

/// Whether two token kinds agree, payloads ignored.
fn kind_matches(a: &TokenKind, b: &TokenKind) -> (r: bool)
    ensures
        r == same_kind(a@, b@),
{
    match (a, b) {
        (TokenKind::Number(_), TokenKind::Number(_)) => true,
        (TokenKind::Str(_), TokenKind::Str(_)) => true,
        (TokenKind::Identifier(_), TokenKind::Identifier(_)) => true,
        (TokenKind::Plus, TokenKind::Plus) => true,
        (TokenKind::Minus, TokenKind::Minus) => true,
        (TokenKind::Star, TokenKind::Star) => true,
        (TokenKind::Slash, TokenKind::Slash) => true,
        (TokenKind::Equal, TokenKind::Equal) => true,
        (TokenKind::PlusEqual, TokenKind::PlusEqual) => true,
        (TokenKind::MinusEqual, TokenKind::MinusEqual) => true,
        (TokenKind::StarEqual, TokenKind::StarEqual) => true,
        (TokenKind::SlashEqual, TokenKind::SlashEqual) => true,
        (TokenKind::EqualEqual, TokenKind::EqualEqual) => true,
        (TokenKind::BangEqual, TokenKind::BangEqual) => true,
        (TokenKind::Greater, TokenKind::Greater) => true,
        (TokenKind::Less, TokenKind::Less) => true,
        (TokenKind::GreaterEqual, TokenKind::GreaterEqual) => true,
        (TokenKind::LessEqual, TokenKind::LessEqual) => true,
        (TokenKind::LParen, TokenKind::LParen) => true,
        (TokenKind::RParen, TokenKind::RParen) => true,
        (TokenKind::LBrace, TokenKind::LBrace) => true,
        (TokenKind::RBrace, TokenKind::RBrace) => true,
        (TokenKind::LBracket, TokenKind::LBracket) => true,
        (TokenKind::RBracket, TokenKind::RBracket) => true,
        (TokenKind::Comma, TokenKind::Comma) => true,
        (TokenKind::Dot, TokenKind::Dot) => true,
        (TokenKind::Semicolon, TokenKind::Semicolon) => true,
        (TokenKind::Let, TokenKind::Let) => true,
        (TokenKind::Const, TokenKind::Const) => true,
        (TokenKind::Fn, TokenKind::Fn) => true,
        (TokenKind::If, TokenKind::If) => true,
        (TokenKind::Else, TokenKind::Else) => true,
        (TokenKind::While, TokenKind::While) => true,
        (TokenKind::Return, TokenKind::Return) => true,
        (TokenKind::Import, TokenKind::Import) => true,
        (TokenKind::Export, TokenKind::Export) => true,
        (TokenKind::True, TokenKind::True) => true,
        (TokenKind::False, TokenKind::False) => true,
        (TokenKind::Null, TokenKind::Null) => true,
        (TokenKind::Eof, TokenKind::Eof) => true,
        _ => false,
    }
}

/// A running parse of one token stream.
pub struct Parser {
    pub tokens: Vec<Token>,
    pub current: usize,
}

/// The models of a parser's tokens.
pub open spec fn ptoks(p: Parser) -> Seq<TokenModel> {
    tokens_model(p.tokens@)
}

/// A position the parser can read from: either something was consumed
/// already (so there is a token behind it), or the stream goes on.
pub open spec fn cur_ok(t: Seq<TokenModel>, p: int) -> bool {
    0 <= p <= t.len() && (p >= 1 || !sp_at_end(t, p))
}

/// What every parsing method leaves untouched or only grows.
pub open spec fn pframe(pre: Parser, post: Parser) -> bool {
    &&& post.tokens == pre.tokens
    &&& pre.current <= post.current
    &&& post.current <= post.tokens@.len()
}

impl Parser {
    pub open spec fn wf(&self) -> bool {
        self.current <= self.tokens@.len()
    }

    pub fn new(tokens: Vec<Token>) -> (p: Parser)
        ensures
            p.tokens == tokens,
            p.current == 0,
            p.wf(),
    {
        Parser { tokens, current: 0 }
    }

    pub fn is_at_end(&self) -> (r: bool)
        requires
            self.wf(),
        ensures
            r == sp_at_end(ptoks(*self), self.current as int),
    {
        if self.current >= self.tokens.len() {
            true
        } else {
            proof {
                assert(ptoks(*self)[self.current as int] == self.tokens@[self.current as int]@);
            }
            kind_matches(&self.tokens[self.current].kind, &TokenKind::Eof)
        }
    }

    pub fn check(&self, kind: &TokenKind) -> (r: bool)
        requires
            self.wf(),
        ensures
            r == sp_check(ptoks(*self), self.current as int, kind@),
    {
        if self.is_at_end() {
            false
        } else {
            proof {
                assert(ptoks(*self)[self.current as int] == self.tokens@[self.current as int]@);
            }
            kind_matches(&self.tokens[self.current].kind, kind)
        }
    }

    pub fn match_kind(&mut self, kind: &TokenKind) -> (r: bool)
        requires
            old(self).wf(),
        ensures
            final(self).tokens == old(self).tokens,
            final(self).wf(),
            r == sp_check(ptoks(*old(self)), old(self).current as int, kind@),
            r ==> final(self).current == old(self).current + 1,
            !r ==> final(self).current == old(self).current,
    {
        if self.check(kind) {
            let _len: usize = self.tokens.len();
            proof {
                assert(ptoks(*self).len() == self.tokens@.len());
            }
            self.current = self.current + 1;
            true
        } else {
            false
        }
    }

    pub fn consume(&mut self, kind: &TokenKind, err: ParseError) -> (r: Result<(), ParseError>)
        requires
            old(self).wf(),
        ensures
            final(self).tokens == old(self).tokens,
            final(self).wf(),
            old(self).current <= final(self).current,
            match r {
                Ok(_) => sp_consume(ptoks(*old(self)), old(self).current as int, kind@, err)
                    == Ok::<int, ParseError>(final(self).current as int),
                Err(e) => sp_consume(ptoks(*old(self)), old(self).current as int, kind@, err)
                    == Err::<int, ParseError>(e) && final(self).current == old(self).current,
            },
    {
        if self.match_kind(kind) {
            Ok(())
        } else {
            Err(err)
        }
    }

    /// Read one token: past the end nothing moves and the token behind
    /// the cursor is read again.
    pub fn advance(&mut self) -> (tk: Token)
        requires
            old(self).wf(),
            cur_ok(ptoks(*old(self)), old(self).current as int),
        ensures
            final(self).tokens == old(self).tokens,
            final(self).wf(),
            old(self).current <= final(self).current,
            cur_ok(ptoks(*final(self)), final(self).current as int),
            (tk@, final(self).current as int) == sp_advance(
                ptoks(*old(self)),
                old(self).current as int,
            ),
    {
        proof {
            assert(ptoks(*self).len() == self.tokens@.len());
        }
        if !self.is_at_end() {
            let _len: usize = self.tokens.len();
            self.current = self.current + 1;
        }
        proof {
            assert(ptoks(*self)[self.current - 1] == self.tokens@[self.current - 1]@);
        }
        clone_token(&self.tokens[self.current - 1])
    }
}

impl Parser {
    /// A primary expression (see `sp_primary`). An unclosed `(` or `[`
    /// right at the end of the stream is reported as an unexpected token
    /// rather than re-read without end.
    #[verifier::rlimit(50)]
    #[verifier::spinoff_prover]
    pub fn primary(&mut self) -> (r: Result<Expr, ParseError>)
        requires
            old(self).wf(),
            cur_ok(ptoks(*old(self)), old(self).current as int),
        ensures
            pframe(*old(self), *final(self)),
            cur_ok(ptoks(*final(self)), final(self).current as int),
            !sp_at_end(ptoks(*old(self)), old(self).current as int) && r is Ok ==> old(self).current < final(self).current,
            r is Ok ==> sp_primary(ptoks(*old(self)), old(self).current as int) == Ok::<
                (ExprModel, int),
                ParseError,
            >(((r->Ok_0).model(), final(self).current as int)),
            r is Err ==> sp_primary(ptoks(*old(self)), old(self).current as int) == Err::<
                (ExprModel, int),
                ParseError,
            >(r->Err_0),
        decreases self.tokens@.len() - self.current, 1int,
    {
        proof {
            reveal(sp_primary);
            reveal(sp_params);
            reveal(sp_block);
            reveal(sp_expression);
            reveal(sp_args);
        }
        let ghost t = ptoks(*self);
        let ghost p0 = self.current as int;
        let was_end = self.is_at_end();
        let tok = self.advance();
        match tok.kind {
            TokenKind::Number(n) => Ok(Expr::Literal(ValueLiteral::Number(n))),
            TokenKind::Str(s) => Ok(Expr::Literal(ValueLiteral::Str(s))),
            TokenKind::True => Ok(Expr::Literal(ValueLiteral::Bool(true))),
            TokenKind::False => Ok(Expr::Literal(ValueLiteral::Bool(false))),
            TokenKind::Null => Ok(Expr::Literal(ValueLiteral::Null)),
            TokenKind::Identifier(s) => Ok(Expr::Variable(s)),
            TokenKind::Fn => {
                let name = if self.check(&TokenKind::Identifier(String::new())) {
                    let nt = self.advance();
                    match nt.kind {
                        TokenKind::Identifier(s) => s,
                        _ => {
                            proof {
                                assert(false);
                            }
                            String::new()
                        },
                    }
                } else {
                    String::new()
                };
                match self.consume(&TokenKind::LParen, ParseError::ExpectedLParenAfterFnName) {
                    Err(e) => {
                        return Err(e);
                    },
                    Ok(_u) => {},
                }
                let params: Vec<String> = if self.check(&TokenKind::RParen) {
                    let v: Vec<String> = Vec::new();
                    proof {
                        assert(crate::ast::params_model(v@) =~= Seq::<Seq<char>>::empty());
                    }
                    v
                } else {
                    match self.params() {
                        Err(e) => {
                            return Err(e);
                        },
                        Ok(ps) => ps,
                    }
                };
                match self.consume(&TokenKind::RParen, ParseError::ExpectedRParenAfterParams) {
                    Err(e) => {
                        return Err(e);
                    },
                    Ok(_u) => {},
                }
                match self.consume(&TokenKind::LBrace, ParseError::ExpectedLBraceBeforeBody) {
                    Err(e) => {
                        return Err(e);
                    },
                    Ok(_u) => {},
                }
                let body = match self.block() {
                    Err(e) => {
                        return Err(e);
                    },
                    Ok(b) => b,
                };
                Ok(Expr::Function { name, params, body })
            },
            TokenKind::LParen => {
                if was_end {
                    return Err(ParseError::UnexpectedToken);
                }
                let e = match self.expression() {
                    Err(er) => {
                        return Err(er);
                    },
                    Ok(x) => x,
                };
                match self.consume(&TokenKind::RParen, ParseError::ExpectedRParen) {
                    Err(er) => {
                        return Err(er);
                    },
                    Ok(_u) => {},
                }
                Ok(e)
            },
            TokenKind::LBracket => {
                if was_end {
                    return Err(ParseError::UnexpectedToken);
                }
                if self.match_kind(&TokenKind::RBracket) {
                    let v: Vec<Expr> = Vec::new();
                    proof {
                        assert(crate::ast::exprs_model(v@) =~= Seq::<ExprModel>::empty());
                    }
                    Ok(Expr::Array(v))
                } else {
                    let els = match self.args() {
                        Err(er) => {
                            return Err(er);
                        },
                        Ok(x) => x,
                    };
                    match self.consume(&TokenKind::RBracket, ParseError::ExpectedRBracket) {
                        Err(er) => {
                            return Err(er);
                        },
                        Ok(_u) => {},
                    }
                    Ok(Expr::Array(els))
                }
            },
            _ => Err(ParseError::UnexpectedToken),
        }
    }

    /// A comma-separated parameter-name list.
    #[verifier::rlimit(50)]
    #[verifier::spinoff_prover]
    pub fn params(&mut self) -> (r: Result<Vec<String>, ParseError>)
        requires
            old(self).wf(),
            cur_ok(ptoks(*old(self)), old(self).current as int),
        ensures
            pframe(*old(self), *final(self)),
            cur_ok(ptoks(*final(self)), final(self).current as int),
            r is Ok ==> sp_params(ptoks(*old(self)), old(self).current as int) == Ok::<
                (Seq<Seq<char>>, int),
                ParseError,
            >((crate::ast::params_model((r->Ok_0)@), final(self).current as int)),
            r is Err ==> sp_params(ptoks(*old(self)), old(self).current as int) == Err::<
                (Seq<Seq<char>>, int),
                ParseError,
            >(r->Err_0),
        decreases self.tokens@.len() - self.current, 1int,
    {
        proof {
            reveal(sp_params);
        }
        let tok = self.advance();
        match tok.kind {
            TokenKind::Identifier(s) => {
                if self.match_kind(&TokenKind::Comma) {
                    let mut rest = match self.params() {
                        Err(e) => {
                            return Err(e);
                        },
                        Ok(v) => v,
                    };
                    let ghost rest0 = rest@;
                    let mut v: Vec<String> = Vec::new();
                    v.push(s);
                    v.append(&mut rest);
                    proof {
                        assert(v@ =~= seq![s] + rest0);
                        assert(crate::ast::params_model(v@) =~= seq![s@] + crate::ast::params_model(
                            rest0,
                        ));
                    }
                    Ok(v)
                } else {
                    let mut v: Vec<String> = Vec::new();
                    v.push(s);
                    proof {
                        assert(crate::ast::params_model(v@) =~= seq![s@]);
                    }
                    Ok(v)
                }
            },
            _ => Err(ParseError::ExpectedParameterName),
        }
    }

    /// A comma-separated expression list.
    #[verifier::rlimit(50)]
    #[verifier::spinoff_prover]
    pub fn args(&mut self) -> (r: Result<Vec<Expr>, ParseError>)
        requires
            old(self).wf(),
            cur_ok(ptoks(*old(self)), old(self).current as int),
        ensures
            pframe(*old(self), *final(self)),
            cur_ok(ptoks(*final(self)), final(self).current as int),
            r is Ok ==> sp_args(ptoks(*old(self)), old(self).current as int) == Ok::<
                (Seq<ExprModel>, int),
                ParseError,
            >((crate::ast::exprs_model((r->Ok_0)@), final(self).current as int)),
            r is Err ==> sp_args(ptoks(*old(self)), old(self).current as int) == Err::<
                (Seq<ExprModel>, int),
                ParseError,
            >(r->Err_0),
        decreases self.tokens@.len() - self.current, 10int,
    {
        proof {
            reveal(sp_args);
            reveal(sp_expression);
        }
        let e = match self.expression() {
            Err(er) => {
                return Err(er);
            },
            Ok(x) => x,
        };
        if self.match_kind(&TokenKind::Comma) {
            let mut rest = match self.args() {
                Err(er) => {
                    return Err(er);
                },
                Ok(v) => v,
            };
            let ghost rest0 = rest@;
            let ghost em = e.model();
            let mut v: Vec<Expr> = Vec::new();
            v.push(e);
            v.append(&mut rest);
            proof {
                assert(v@ =~= seq![v@[0]] + rest0);
                crate::ast::lemma_exprs_model_len(v@);
                crate::ast::lemma_exprs_model_len(rest0);
                assert forall|i: int| 0 <= i < v@.len() implies crate::ast::exprs_model(v@)[i] == (
                seq![em] + crate::ast::exprs_model(rest0))[i] by {
                    if i == 0 {
                        assert(crate::ast::exprs_model(v@)[0] == v@[0].model());
                    } else {
                        assert(v@[i] == rest0[i - 1]);
                        assert(crate::ast::exprs_model(v@)[i] == v@[i].model());
                        assert(crate::ast::exprs_model(rest0)[i - 1] == rest0[i - 1].model());
                    }
                }
                assert(crate::ast::exprs_model(v@) =~= seq![em] + crate::ast::exprs_model(rest0));
            }
            Ok(v)
        } else {
            let ghost em = e.model();
            let mut v: Vec<Expr> = Vec::new();
            v.push(e);
            proof {
                crate::ast::lemma_exprs_model_len(v@);
                assert(crate::ast::exprs_model(v@) =~= seq![em]);
            }
            Ok(v)
        }
    }

    /// Zero or more trailing argument lists after a callee.
    #[verifier::rlimit(50)]
    #[verifier::spinoff_prover]
    pub fn call_rest(&mut self, callee: Expr) -> (r: Result<Expr, ParseError>)
        requires
            old(self).wf(),
            cur_ok(ptoks(*old(self)), old(self).current as int),
        ensures
            pframe(*old(self), *final(self)),
            cur_ok(ptoks(*final(self)), final(self).current as int),
            r is Ok ==> sp_call_rest(ptoks(*old(self)), old(self).current as int, callee.model())
                == Ok::<(ExprModel, int), ParseError>(
                ((r->Ok_0).model(), final(self).current as int),
            ),
            r is Err ==> sp_call_rest(ptoks(*old(self)), old(self).current as int, callee.model())
                == Err::<(ExprModel, int), ParseError>(r->Err_0),
        decreases self.tokens@.len() - self.current, 1int,
    {
        proof {
            reveal(sp_call_rest);
            reveal(sp_args);
        }
        if self.match_kind(&TokenKind::LParen) {
            if self.match_kind(&TokenKind::RParen) {
                let v: Vec<Expr> = Vec::new();
                proof {
                    assert(crate::ast::exprs_model(v@) =~= Seq::<ExprModel>::empty());
                }
                self.call_rest(Expr::Call { callee: Box::new(callee), args: v })
            } else {
                let args = match self.args() {
                    Err(e) => {
                        return Err(e);
                    },
                    Ok(v) => v,
                };
                match self.consume(&TokenKind::RParen, ParseError::ExpectedRParenAfterArgs) {
                    Err(e) => {
                        return Err(e);
                    },
                    Ok(_u) => {},
                }
                self.call_rest(Expr::Call { callee: Box::new(callee), args })
            }
        } else {
            Ok(callee)
        }
    }

    /// A call chain.
    #[verifier::rlimit(50)]
    #[verifier::spinoff_prover]
    pub fn call(&mut self) -> (r: Result<Expr, ParseError>)
        requires
            old(self).wf(),
            cur_ok(ptoks(*old(self)), old(self).current as int),
        ensures
            pframe(*old(self), *final(self)),
            cur_ok(ptoks(*final(self)), final(self).current as int),
            !sp_at_end(ptoks(*old(self)), old(self).current as int) && r is Ok ==> old(self).current < final(self).current,
            r is Ok ==> sp_call(ptoks(*old(self)), old(self).current as int) == Ok::<
                (ExprModel, int),
                ParseError,
            >(((r->Ok_0).model(), final(self).current as int)),
            r is Err ==> sp_call(ptoks(*old(self)), old(self).current as int) == Err::<
                (ExprModel, int),
                ParseError,
            >(r->Err_0),
        decreases self.tokens@.len() - self.current, 2int,
    {
        proof {
            reveal(sp_call);
            reveal(sp_primary);
            reveal(sp_call_rest);
        }
        let e = match self.primary() {
            Err(er) => {
                return Err(er);
            },
            Ok(x) => x,
        };
        self.call_rest(e)
    }

    /// The unary level: just the call chain (the grammar has no prefix
    /// operators).
    #[verifier::rlimit(50)]
    #[verifier::spinoff_prover]
    pub fn unary(&mut self) -> (r: Result<Expr, ParseError>)
        requires
            old(self).wf(),
            cur_ok(ptoks(*old(self)), old(self).current as int),
        ensures
            pframe(*old(self), *final(self)),
            cur_ok(ptoks(*final(self)), final(self).current as int),
            !sp_at_end(ptoks(*old(self)), old(self).current as int) && r is Ok ==> old(self).current < final(self).current,
            r is Ok ==> sp_unary(ptoks(*old(self)), old(self).current as int) == Ok::<
                (ExprModel, int),
                ParseError,
            >(((r->Ok_0).model(), final(self).current as int)),
            r is Err ==> sp_unary(ptoks(*old(self)), old(self).current as int) == Err::<
                (ExprModel, int),
                ParseError,
            >(r->Err_0),
        decreases self.tokens@.len() - self.current, 3int,
    {
        proof {
            reveal(sp_unary);
            reveal(sp_call);
        }
        self.call()
    }

    #[verifier::rlimit(50)]
    #[verifier::spinoff_prover]
    fn factor_rest(&mut self, acc: Expr) -> (r: Result<Expr, ParseError>)
        requires
            old(self).wf(),
            cur_ok(ptoks(*old(self)), old(self).current as int),
        ensures
            pframe(*old(self), *final(self)),
            cur_ok(ptoks(*final(self)), final(self).current as int),
            r is Ok ==> sp_factor_rest(ptoks(*old(self)), old(self).current as int, acc.model())
                == Ok::<(ExprModel, int), ParseError>(
                ((r->Ok_0).model(), final(self).current as int),
            ),
            r is Err ==> sp_factor_rest(ptoks(*old(self)), old(self).current as int, acc.model())
                == Err::<(ExprModel, int), ParseError>(r->Err_0),
        decreases self.tokens@.len() - self.current, 3int,
    {
        proof {
            reveal(sp_factor_rest);
            reveal(sp_unary);
        }
        let star = self.check(&TokenKind::Star);
        let slash = self.check(&TokenKind::Slash);
        if star || slash {
            let op = if star {
                let _m = self.match_kind(&TokenKind::Star);
                TokenKind::Star
            } else {
                let _m = self.match_kind(&TokenKind::Slash);
                TokenKind::Slash
            };
            let rhs = match self.unary() {
                Err(e) => {
                    return Err(e);
                },
                Ok(x) => x,
            };
            let joined = Expr::Binary { left: Box::new(acc), operator: op, right: Box::new(rhs) };
            self.factor_rest(joined)
        } else {
            Ok(acc)
        }
    }

    #[verifier::rlimit(50)]
    #[verifier::spinoff_prover]
    pub fn factor(&mut self) -> (r: Result<Expr, ParseError>)
        requires
            old(self).wf(),
            cur_ok(ptoks(*old(self)), old(self).current as int),
        ensures
            pframe(*old(self), *final(self)),
            cur_ok(ptoks(*final(self)), final(self).current as int),
            !sp_at_end(ptoks(*old(self)), old(self).current as int) && r is Ok ==> old(self).current < final(self).current,
            r is Ok ==> sp_factor(ptoks(*old(self)), old(self).current as int) == Ok::<
                (ExprModel, int),
                ParseError,
            >(((r->Ok_0).model(), final(self).current as int)),
            r is Err ==> sp_factor(ptoks(*old(self)), old(self).current as int) == Err::<
                (ExprModel, int),
                ParseError,
            >(r->Err_0),
        decreases self.tokens@.len() - self.current, 4int,
    {
        proof {
            reveal(sp_factor);
            reveal(sp_unary);
            reveal(sp_factor_rest);
        }
        let e = match self.unary() {
            Err(er) => {
                return Err(er);
            },
            Ok(x) => x,
        };
        self.factor_rest(e)
    }

    #[verifier::rlimit(50)]
    #[verifier::spinoff_prover]
    fn term_rest(&mut self, acc: Expr) -> (r: Result<Expr, ParseError>)
        requires
            old(self).wf(),
            cur_ok(ptoks(*old(self)), old(self).current as int),
        ensures
            pframe(*old(self), *final(self)),
            cur_ok(ptoks(*final(self)), final(self).current as int),
            r is Ok ==> sp_term_rest(ptoks(*old(self)), old(self).current as int, acc.model())
                == Ok::<(ExprModel, int), ParseError>(
                ((r->Ok_0).model(), final(self).current as int),
            ),
            r is Err ==> sp_term_rest(ptoks(*old(self)), old(self).current as int, acc.model())
                == Err::<(ExprModel, int), ParseError>(r->Err_0),
        decreases self.tokens@.len() - self.current, 4int,
    {
        proof {
            reveal(sp_term_rest);
            reveal(sp_factor);
        }
        let plus = self.check(&TokenKind::Plus);
        let minus = self.check(&TokenKind::Minus);
        if plus || minus {
            let op = if plus {
                let _m = self.match_kind(&TokenKind::Plus);
                TokenKind::Plus
            } else {
                let _m = self.match_kind(&TokenKind::Minus);
                TokenKind::Minus
            };
            let rhs = match self.factor() {
                Err(e) => {
                    return Err(e);
                },
                Ok(x) => x,
            };
            let joined = Expr::Binary { left: Box::new(acc), operator: op, right: Box::new(rhs) };
            self.term_rest(joined)
        } else {
            Ok(acc)
        }
    }

    #[verifier::rlimit(50)]
    #[verifier::spinoff_prover]
    pub fn term(&mut self) -> (r: Result<Expr, ParseError>)
        requires
            old(self).wf(),
            cur_ok(ptoks(*old(self)), old(self).current as int),
        ensures
            pframe(*old(self), *final(self)),
            cur_ok(ptoks(*final(self)), final(self).current as int),
            !sp_at_end(ptoks(*old(self)), old(self).current as int) && r is Ok ==> old(self).current < final(self).current,
            r is Ok ==> sp_term(ptoks(*old(self)), old(self).current as int) == Ok::<
                (ExprModel, int),
                ParseError,
            >(((r->Ok_0).model(), final(self).current as int)),
            r is Err ==> sp_term(ptoks(*old(self)), old(self).current as int) == Err::<
                (ExprModel, int),
                ParseError,
            >(r->Err_0),
        decreases self.tokens@.len() - self.current, 5int,
    {
        proof {
            reveal(sp_term);
            reveal(sp_factor);
            reveal(sp_term_rest);
        }
        let e = match self.factor() {
            Err(er) => {
                return Err(er);
            },
            Ok(x) => x,
        };
        self.term_rest(e)
    }

    #[verifier::rlimit(50)]
    #[verifier::spinoff_prover]
    fn cmp_rest(&mut self, acc: Expr) -> (r: Result<Expr, ParseError>)
        requires
            old(self).wf(),
            cur_ok(ptoks(*old(self)), old(self).current as int),
        ensures
            pframe(*old(self), *final(self)),
            cur_ok(ptoks(*final(self)), final(self).current as int),
            r is Ok ==> sp_cmp_rest(ptoks(*old(self)), old(self).current as int, acc.model())
                == Ok::<(ExprModel, int), ParseError>(
                ((r->Ok_0).model(), final(self).current as int),
            ),
            r is Err ==> sp_cmp_rest(ptoks(*old(self)), old(self).current as int, acc.model())
                == Err::<(ExprModel, int), ParseError>(r->Err_0),
        decreases self.tokens@.len() - self.current, 5int,
    {
        proof {
            reveal(sp_cmp_rest);
            reveal(sp_term);
        }
        let gt = self.check(&TokenKind::Greater);
        let ge = self.check(&TokenKind::GreaterEqual);
        let lt = self.check(&TokenKind::Less);
        let le = self.check(&TokenKind::LessEqual);
        if gt || ge || lt || le {
            let op = if gt {
                let _m = self.match_kind(&TokenKind::Greater);
                TokenKind::Greater
            } else if ge {
                let _m = self.match_kind(&TokenKind::GreaterEqual);
                TokenKind::GreaterEqual
            } else if lt {
                let _m = self.match_kind(&TokenKind::Less);
                TokenKind::Less
            } else {
                let _m = self.match_kind(&TokenKind::LessEqual);
                TokenKind::LessEqual
            };
            let rhs = match self.term() {
                Err(e) => {
                    return Err(e);
                },
                Ok(x) => x,
            };
            let joined = Expr::Binary { left: Box::new(acc), operator: op, right: Box::new(rhs) };
            self.cmp_rest(joined)
        } else {
            Ok(acc)
        }
    }

    #[verifier::rlimit(50)]
    #[verifier::spinoff_prover]
    pub fn comparison(&mut self) -> (r: Result<Expr, ParseError>)
        requires
            old(self).wf(),
            cur_ok(ptoks(*old(self)), old(self).current as int),
        ensures
            pframe(*old(self), *final(self)),
            cur_ok(ptoks(*final(self)), final(self).current as int),
            !sp_at_end(ptoks(*old(self)), old(self).current as int) && r is Ok ==> old(self).current < final(self).current,
            r is Ok ==> sp_comparison(ptoks(*old(self)), old(self).current as int) == Ok::<
                (ExprModel, int),
                ParseError,
            >(((r->Ok_0).model(), final(self).current as int)),
            r is Err ==> sp_comparison(ptoks(*old(self)), old(self).current as int) == Err::<
                (ExprModel, int),
                ParseError,
            >(r->Err_0),
        decreases self.tokens@.len() - self.current, 6int,
    {
        proof {
            reveal(sp_comparison);
            reveal(sp_term);
            reveal(sp_cmp_rest);
        }
        let e = match self.term() {
            Err(er) => {
                return Err(er);
            },
            Ok(x) => x,
        };
        self.cmp_rest(e)
    }

    #[verifier::rlimit(50)]
    #[verifier::spinoff_prover]
    fn eq_rest(&mut self, acc: Expr) -> (r: Result<Expr, ParseError>)
        requires
            old(self).wf(),
            cur_ok(ptoks(*old(self)), old(self).current as int),
        ensures
            pframe(*old(self), *final(self)),
            cur_ok(ptoks(*final(self)), final(self).current as int),
            r is Ok ==> sp_eq_rest(ptoks(*old(self)), old(self).current as int, acc.model())
                == Ok::<(ExprModel, int), ParseError>(
                ((r->Ok_0).model(), final(self).current as int),
            ),
            r is Err ==> sp_eq_rest(ptoks(*old(self)), old(self).current as int, acc.model())
                == Err::<(ExprModel, int), ParseError>(r->Err_0),
        decreases self.tokens@.len() - self.current, 6int,
    {
        proof {
            reveal(sp_eq_rest);
            reveal(sp_comparison);
        }
        let ee = self.check(&TokenKind::EqualEqual);
        let be = self.check(&TokenKind::BangEqual);
        if ee || be {
            let op = if ee {
                let _m = self.match_kind(&TokenKind::EqualEqual);
                TokenKind::EqualEqual
            } else {
                let _m = self.match_kind(&TokenKind::BangEqual);
                TokenKind::BangEqual
            };
            let rhs = match self.comparison() {
                Err(e) => {
                    return Err(e);
                },
                Ok(x) => x,
            };
            let joined = Expr::Binary { left: Box::new(acc), operator: op, right: Box::new(rhs) };
            self.eq_rest(joined)
        } else {
            Ok(acc)
        }
    }

    #[verifier::rlimit(50)]
    #[verifier::spinoff_prover]
    pub fn equality(&mut self) -> (r: Result<Expr, ParseError>)
        requires
            old(self).wf(),
            cur_ok(ptoks(*old(self)), old(self).current as int),
        ensures
            pframe(*old(self), *final(self)),
            cur_ok(ptoks(*final(self)), final(self).current as int),
            !sp_at_end(ptoks(*old(self)), old(self).current as int) && r is Ok ==> old(self).current < final(self).current,
            r is Ok ==> sp_equality(ptoks(*old(self)), old(self).current as int) == Ok::<
                (ExprModel, int),
                ParseError,
            >(((r->Ok_0).model(), final(self).current as int)),
            r is Err ==> sp_equality(ptoks(*old(self)), old(self).current as int) == Err::<
                (ExprModel, int),
                ParseError,
            >(r->Err_0),
        decreases self.tokens@.len() - self.current, 7int,
    {
        proof {
            reveal(sp_equality);
            reveal(sp_comparison);
            reveal(sp_eq_rest);
        }
        let e = match self.comparison() {
            Err(er) => {
                return Err(er);
            },
            Ok(x) => x,
        };
        self.eq_rest(e)
    }

    /// Assignment: only a bare variable may stand on the left; compound
    /// assignment desugars into the plain operator.
    #[verifier::rlimit(50)]
    #[verifier::spinoff_prover]
    pub fn assignment(&mut self) -> (r: Result<Expr, ParseError>)
        requires
            old(self).wf(),
            cur_ok(ptoks(*old(self)), old(self).current as int),
        ensures
            pframe(*old(self), *final(self)),
            cur_ok(ptoks(*final(self)), final(self).current as int),
            !sp_at_end(ptoks(*old(self)), old(self).current as int) && r is Ok ==> old(self).current < final(self).current,
            r is Ok ==> sp_assignment(ptoks(*old(self)), old(self).current as int) == Ok::<
                (ExprModel, int),
                ParseError,
            >(((r->Ok_0).model(), final(self).current as int)),
            r is Err ==> sp_assignment(ptoks(*old(self)), old(self).current as int) == Err::<
                (ExprModel, int),
                ParseError,
            >(r->Err_0),
        decreases self.tokens@.len() - self.current, 8int,
    {
        proof {
            reveal(sp_assignment);
            reveal(sp_equality);
        }
        let ghost t0 = ptoks(*self);
        let ghost p0 = self.current as int;
        let e = match self.equality() {
            Err(er) => {
                return Err(er);
            },
            Ok(x) => x,
        };
        let ghost em = e.model();
        let ghost p1 = self.current as int;
        if self.match_kind(&TokenKind::Equal) {
            let v = match self.assignment() {
                Err(er) => {
                    return Err(er);
                },
                Ok(x) => x,
            };
            let ghost vm = v.model();
            match e {
                Expr::Variable(name) => {
                    proof {
                        assert(em == ExprModel::Variable(name@));
                    }
                    let res = Expr::Assign { name, value: Box::new(v) };
                    proof {
                        assert(res.model() == (ExprModel::Assign {
                            name: em->Variable_0,
                            value: Box::new(vm),
                        }));
                        assert(sp_assignment(t0, p0) == Ok::<(ExprModel, int), ParseError>(
                            (res.model(), self.current as int),
                        ));
                    }
                    Ok(res)
                },
                _ => Err(ParseError::InvalidAssignmentTarget),
            }
        } else {
            let pe = self.check(&TokenKind::PlusEqual);
            let me = self.check(&TokenKind::MinusEqual);
            let se = self.check(&TokenKind::StarEqual);
            let de = self.check(&TokenKind::SlashEqual);
            if pe || me || se || de {
                let op = if pe {
                    let _m = self.match_kind(&TokenKind::PlusEqual);
                    TokenKind::Plus
                } else if me {
                    let _m = self.match_kind(&TokenKind::MinusEqual);
                    TokenKind::Minus
                } else if se {
                    let _m = self.match_kind(&TokenKind::StarEqual);
                    TokenKind::Star
                } else {
                    let _m = self.match_kind(&TokenKind::SlashEqual);
                    TokenKind::Slash
                };
                let v = match self.assignment() {
                    Err(er) => {
                        return Err(er);
                    },
                    Ok(x) => x,
                };
                let ghost vm = v.model();
                match e {
                    Expr::Variable(name) => {
                        proof {
                            assert(em == ExprModel::Variable(name@));
                        }
                        let lhs = name.clone();
                        let left_var = Expr::Variable(lhs);
                        let ghost lm = left_var.model();
                        proof {
                            assert(lm == ExprModel::Variable(em->Variable_0));
                        }
                        let joined = Expr::Binary {
                            left: Box::new(left_var),
                            operator: op,
                            right: Box::new(v),
                        };
                        let ghost bm = joined.model();
                        proof {
                            assert(bm == (ExprModel::Binary {
                                left: Box::new(lm),
                                operator: op@,
                                right: Box::new(vm),
                            }));
                        }
                        let res = Expr::Assign { name, value: Box::new(joined) };
                        proof {
                            assert(res.model() == (ExprModel::Assign {
                                name: em->Variable_0,
                                value: Box::new(bm),
                            }));
                            assert(sp_assignment(t0, p0) == Ok::<(ExprModel, int), ParseError>(
                                (res.model(), self.current as int),
                            ));
                        }
                        Ok(res)
                    },
                    _ => Err(ParseError::InvalidAssignmentTarget),
                }
            } else {
                Ok(e)
            }
        }
    }

    /// The statements of a brace-delimited block, consuming the closing
    /// brace.
    #[verifier::rlimit(50)]
    #[verifier::spinoff_prover]
    pub fn block(&mut self) -> (r: Result<Vec<Stmt>, ParseError>)
        requires
            old(self).wf(),
            cur_ok(ptoks(*old(self)), old(self).current as int),
        ensures
            pframe(*old(self), *final(self)),
            cur_ok(ptoks(*final(self)), final(self).current as int),
            r is Ok ==> sp_block(ptoks(*old(self)), old(self).current as int) == Ok::<
                (Seq<StmtModel>, int),
                ParseError,
            >((crate::ast::stmts_model((r->Ok_0)@), final(self).current as int)),
            r is Err ==> sp_block(ptoks(*old(self)), old(self).current as int) == Err::<
                (Seq<StmtModel>, int),
                ParseError,
            >(r->Err_0),
        decreases self.tokens@.len() - self.current, 12int,
    {
        proof {
            reveal(sp_block);
            reveal(sp_statement);
        }
        if !self.check(&TokenKind::RBrace) && !self.is_at_end() {
            let s = match self.statement() {
                Err(e) => {
                    return Err(e);
                },
                Ok(x) => x,
            };
            let mut rest = match self.block() {
                Err(e) => {
                    return Err(e);
                },
                Ok(v) => v,
            };
            let ghost rest0 = rest@;
            let ghost sm = s.model();
            let mut v: Vec<Stmt> = Vec::new();
            v.push(s);
            v.append(&mut rest);
            proof {
                assert(v@ =~= seq![v@[0]] + rest0);
                crate::ast::lemma_stmts_model_len(v@);
                crate::ast::lemma_stmts_model_len(rest0);
                assert forall|i: int| 0 <= i < v@.len() implies crate::ast::stmts_model(v@)[i] == (
                seq![sm] + crate::ast::stmts_model(rest0))[i] by {
                    if i == 0 {
                        assert(crate::ast::stmts_model(v@)[0] == v@[0].model());
                    } else {
                        assert(v@[i] == rest0[i - 1]);
                        assert(crate::ast::stmts_model(v@)[i] == v@[i].model());
                        assert(crate::ast::stmts_model(rest0)[i - 1] == rest0[i - 1].model());
                    }
                }
                assert(crate::ast::stmts_model(v@) =~= seq![sm] + crate::ast::stmts_model(rest0));
            }
            Ok(v)
        } else {
            match self.consume(&TokenKind::RBrace, ParseError::ExpectedRBraceAfterBlock) {
                Err(e) => Err(e),
                Ok(_u) => {
                    let v: Vec<Stmt> = Vec::new();
                    proof {
                        assert(crate::ast::stmts_model(v@) =~= Seq::<StmtModel>::empty());
                    }
                    Ok(v)
                },
            }
        }
    }

    /// A dotted import path joined into one string.
    #[verifier::rlimit(50)]
    #[verifier::spinoff_prover]
    fn import_path(&mut self, acc: String) -> (r: Result<String, ParseError>)
        requires
            old(self).wf(),
            cur_ok(ptoks(*old(self)), old(self).current as int),
        ensures
            pframe(*old(self), *final(self)),
            cur_ok(ptoks(*final(self)), final(self).current as int),
            r is Ok ==> sp_import_path(ptoks(*old(self)), old(self).current as int, acc@) == Ok::<
                (Seq<char>, int),
                ParseError,
            >(((r->Ok_0)@, final(self).current as int)),
            r is Err ==> sp_import_path(ptoks(*old(self)), old(self).current as int, acc@) == Err::<
                (Seq<char>, int),
                ParseError,
            >(r->Err_0),
        decreases self.tokens@.len() - self.current, 1int,
    {
        proof {
            reveal(sp_import_path);
        }
        proof {
            reveal_strlit(".");
        }
        if self.match_kind(&TokenKind::Dot) {
            let tok = self.advance();
            match tok.kind {
                TokenKind::Identifier(s) => {
                    let ghost a0 = acc@;
                    let mut joined = acc;
                    joined.append(".");
                    joined.append(s.as_str());
                    proof {
                        assert(("."@) =~= seq!['.']);
                        assert(joined@ == a0 + seq!['.'] + s@);
                    }
                    self.import_path(joined)
                },
                _ => Err(ParseError::ExpectedIdentifierAfterDot),
            }
        } else {
            Ok(acc)
        }
    }

    /// An import statement body (after `import`).
    #[verifier::rlimit(50)]
    #[verifier::spinoff_prover]
    pub fn import_statement(&mut self) -> (r: Result<Stmt, ParseError>)
        requires
            old(self).wf(),
            cur_ok(ptoks(*old(self)), old(self).current as int),
        ensures
            pframe(*old(self), *final(self)),
            cur_ok(ptoks(*final(self)), final(self).current as int),
            r is Ok ==> sp_import(ptoks(*old(self)), old(self).current as int) == Ok::<
                (StmtModel, int),
                ParseError,
            >(((r->Ok_0).model(), final(self).current as int)),
            r is Err ==> sp_import(ptoks(*old(self)), old(self).current as int) == Err::<
                (StmtModel, int),
                ParseError,
            >(r->Err_0),
        decreases self.tokens@.len() - self.current, 10int,
    {
        proof {
            reveal(sp_import);
            reveal(sp_import_path);
        }
        let tok = self.advance();
        match tok.kind {
            TokenKind::Str(s) => Ok(Stmt::Import(s)),
            TokenKind::Identifier(s) => {
                let path = match self.import_path(s) {
                    Err(e) => {
                        return Err(e);
                    },
                    Ok(p) => p,
                };
                Ok(Stmt::Import(path))
            },
            _ => Err(ParseError::ExpectedModulePath),
        }
    }

    /// A let or const statement body (after the keyword).
    #[verifier::rlimit(50)]
    #[verifier::spinoff_prover]
    pub fn let_statement(&mut self, is_const: bool, is_exported: bool) -> (r: Result<
        Stmt,
        ParseError,
    >)
        requires
            old(self).wf(),
            cur_ok(ptoks(*old(self)), old(self).current as int),
        ensures
            pframe(*old(self), *final(self)),
            cur_ok(ptoks(*final(self)), final(self).current as int),
            r is Ok ==> sp_let(ptoks(*old(self)), old(self).current as int, is_const, is_exported)
                == Ok::<(StmtModel, int), ParseError>(
                ((r->Ok_0).model(), final(self).current as int),
            ),
            r is Err ==> sp_let(ptoks(*old(self)), old(self).current as int, is_const, is_exported)
                == Err::<(StmtModel, int), ParseError>(r->Err_0),
        decreases self.tokens@.len() - self.current, 10int,
    {
        proof {
            reveal(sp_let);
            reveal(sp_expression);
        }
        let tok = self.advance();
        let name = match tok.kind {
            TokenKind::Identifier(s) => s,
            _ => {
                return Err(ParseError::ExpectedIdentifier);
            },
        };
        match self.consume(&TokenKind::Equal, ParseError::ExpectedEqualAfterName) {
            Err(e) => {
                return Err(e);
            },
            Ok(_u) => {},
        }
        let value = match self.expression() {
            Err(e) => {
                return Err(e);
            },
            Ok(v) => v,
        };
        Ok(Stmt::Let { name, value, is_const, is_exported })
    }

    /// A named function declaration body (after `fn`).
    #[verifier::rlimit(50)]
    #[verifier::spinoff_prover]
    pub fn fn_statement(&mut self, is_exported: bool) -> (r: Result<Stmt, ParseError>)
        requires
            old(self).wf(),
            cur_ok(ptoks(*old(self)), old(self).current as int),
        ensures
            pframe(*old(self), *final(self)),
            cur_ok(ptoks(*final(self)), final(self).current as int),
            r is Ok ==> sp_fn_stmt(ptoks(*old(self)), old(self).current as int, is_exported)
                == Ok::<(StmtModel, int), ParseError>(
                ((r->Ok_0).model(), final(self).current as int),
            ),
            r is Err ==> sp_fn_stmt(ptoks(*old(self)), old(self).current as int, is_exported)
                == Err::<(StmtModel, int), ParseError>(r->Err_0),
        decreases self.tokens@.len() - self.current, 10int,
    {
        proof {
            reveal(sp_fn_stmt);
            reveal(sp_params);
            reveal(sp_block);
        }
        let tok = self.advance();
        let name = match tok.kind {
            TokenKind::Identifier(s) => s,
            _ => {
                return Err(ParseError::ExpectedFunctionName);
            },
        };
        match self.consume(&TokenKind::LParen, ParseError::ExpectedLParenAfterFnName) {
            Err(e) => {
                return Err(e);
            },
            Ok(_u) => {},
        }
        let params: Vec<String> = if self.check(&TokenKind::RParen) {
            let v: Vec<String> = Vec::new();
            proof {
                assert(crate::ast::params_model(v@) =~= Seq::<Seq<char>>::empty());
            }
            v
        } else {
            match self.params() {
                Err(e) => {
                    return Err(e);
                },
                Ok(ps) => ps,
            }
        };
        match self.consume(&TokenKind::RParen, ParseError::ExpectedRParenAfterParams) {
            Err(e) => {
                return Err(e);
            },
            Ok(_u) => {},
        }
        match self.consume(&TokenKind::LBrace, ParseError::ExpectedLBraceBeforeBody) {
            Err(e) => {
                return Err(e);
            },
            Ok(_u) => {},
        }
        let body = match self.block() {
            Err(e) => {
                return Err(e);
            },
            Ok(b) => b,
        };
        Ok(Stmt::Function { name, params, body, is_exported })
    }

    /// An if statement body (after `if`).
    #[verifier::rlimit(50)]
    #[verifier::spinoff_prover]
    pub fn if_statement(&mut self) -> (r: Result<Stmt, ParseError>)
        requires
            old(self).wf(),
            cur_ok(ptoks(*old(self)), old(self).current as int),
        ensures
            pframe(*old(self), *final(self)),
            cur_ok(ptoks(*final(self)), final(self).current as int),
            r is Ok ==> sp_if(ptoks(*old(self)), old(self).current as int) == Ok::<
                (StmtModel, int),
                ParseError,
            >(((r->Ok_0).model(), final(self).current as int)),
            r is Err ==> sp_if(ptoks(*old(self)), old(self).current as int) == Err::<
                (StmtModel, int),
                ParseError,
            >(r->Err_0),
        decreases self.tokens@.len() - self.current, 10int,
    {
        proof {
            reveal(sp_if);
            reveal(sp_expression);
            reveal(sp_block);
        }
        let condition = match self.expression() {
            Err(e) => {
                return Err(e);
            },
            Ok(c) => c,
        };
        match self.consume(&TokenKind::LBrace, ParseError::ExpectedLBraceAfterCondition) {
            Err(e) => {
                return Err(e);
            },
            Ok(_u) => {},
        }
        let then_branch = match self.block() {
            Err(e) => {
                return Err(e);
            },
            Ok(b) => b,
        };
        if self.match_kind(&TokenKind::Else) {
            match self.consume(&TokenKind::LBrace, ParseError::ExpectedLBraceAfterElse) {
                Err(e) => {
                    return Err(e);
                },
                Ok(_u) => {},
            }
            let else_branch = match self.block() {
                Err(e) => {
                    return Err(e);
                },
                Ok(b) => b,
            };
            Ok(Stmt::If { condition, then_branch, else_branch: Some(else_branch) })
        } else {
            Ok(Stmt::If { condition, then_branch, else_branch: None })
        }
    }

    /// A while statement body (after `while`).
    #[verifier::rlimit(50)]
    #[verifier::spinoff_prover]
    pub fn while_statement(&mut self) -> (r: Result<Stmt, ParseError>)
        requires
            old(self).wf(),
            cur_ok(ptoks(*old(self)), old(self).current as int),
        ensures
            pframe(*old(self), *final(self)),
            cur_ok(ptoks(*final(self)), final(self).current as int),
            r is Ok ==> sp_while(ptoks(*old(self)), old(self).current as int) == Ok::<
                (StmtModel, int),
                ParseError,
            >(((r->Ok_0).model(), final(self).current as int)),
            r is Err ==> sp_while(ptoks(*old(self)), old(self).current as int) == Err::<
                (StmtModel, int),
                ParseError,
            >(r->Err_0),
        decreases self.tokens@.len() - self.current, 10int,
    {
        proof {
            reveal(sp_while);
            reveal(sp_expression);
            reveal(sp_block);
        }
        let condition = match self.expression() {
            Err(e) => {
                return Err(e);
            },
            Ok(c) => c,
        };
        match self.consume(&TokenKind::LBrace, ParseError::ExpectedLBraceAfterCondition) {
            Err(e) => {
                return Err(e);
            },
            Ok(_u) => {},
        }
        let body = match self.block() {
            Err(e) => {
                return Err(e);
            },
            Ok(b) => b,
        };
        Ok(Stmt::While { condition, body })
    }

    /// A return statement body (after `return`).
    #[verifier::rlimit(50)]
    #[verifier::spinoff_prover]
    pub fn return_statement(&mut self) -> (r: Result<Stmt, ParseError>)
        requires
            old(self).wf(),
            cur_ok(ptoks(*old(self)), old(self).current as int),
        ensures
            pframe(*old(self), *final(self)),
            cur_ok(ptoks(*final(self)), final(self).current as int),
            r is Ok ==> sp_return(ptoks(*old(self)), old(self).current as int) == Ok::<
                (StmtModel, int),
                ParseError,
            >(((r->Ok_0).model(), final(self).current as int)),
            r is Err ==> sp_return(ptoks(*old(self)), old(self).current as int) == Err::<
                (StmtModel, int),
                ParseError,
            >(r->Err_0),
        decreases self.tokens@.len() - self.current, 10int,
    {
        proof {
            reveal(sp_return);
            reveal(sp_expression);
        }
        if self.check(&TokenKind::RBrace) {
            Ok(Stmt::Return(None))
        } else {
            let v = match self.expression() {
                Err(e) => {
                    return Err(e);
                },
                Ok(x) => x,
            };
            Ok(Stmt::Return(Some(v)))
        }
    }

    /// One statement.
    #[verifier::rlimit(50)]
    #[verifier::spinoff_prover]
    pub fn statement(&mut self) -> (r: Result<Stmt, ParseError>)
        requires
            old(self).wf(),
            cur_ok(ptoks(*old(self)), old(self).current as int),
        ensures
            pframe(*old(self), *final(self)),
            cur_ok(ptoks(*final(self)), final(self).current as int),
            !sp_at_end(ptoks(*old(self)), old(self).current as int) && r is Ok ==> old(self).current < final(self).current,
            r is Ok ==> sp_statement(ptoks(*old(self)), old(self).current as int) == Ok::<
                (StmtModel, int),
                ParseError,
            >(((r->Ok_0).model(), final(self).current as int)),
            r is Err ==> sp_statement(ptoks(*old(self)), old(self).current as int) == Err::<
                (StmtModel, int),
                ParseError,
            >(r->Err_0),
        decreases self.tokens@.len() - self.current, 11int,
    {
        proof {
            reveal(sp_statement);
            reveal(sp_let);
            reveal(sp_fn_stmt);
            reveal(sp_import);
            reveal(sp_if);
            reveal(sp_while);
            reveal(sp_return);
            reveal(sp_block);
            reveal(sp_expression);
        }
        let is_exported = self.match_kind(&TokenKind::Export);
        if self.match_kind(&TokenKind::Let) {
            return self.let_statement(false, is_exported);
        }
        if self.match_kind(&TokenKind::Const) {
            return self.let_statement(true, is_exported);
        }
        if self.match_kind(&TokenKind::Fn) {
            return self.fn_statement(is_exported);
        }
        if self.match_kind(&TokenKind::Import) {
            return self.import_statement();
        }
        if self.match_kind(&TokenKind::If) {
            return self.if_statement();
        }
        if self.match_kind(&TokenKind::While) {
            return self.while_statement();
        }
        if self.match_kind(&TokenKind::Return) {
            return self.return_statement();
        }
        if self.match_kind(&TokenKind::LBrace) {
            let b = match self.block() {
                Err(e) => {
                    return Err(e);
                },
                Ok(v) => v,
            };
            return Ok(Stmt::Block(b));
        }
        let e = match self.expression() {
            Err(er) => {
                return Err(er);
            },
            Ok(x) => x,
        };
        Ok(Stmt::Expr(e))
    }

    /// All statements to the end of the stream.
    #[verifier::rlimit(50)]
    #[verifier::spinoff_prover]
    pub fn parse(&mut self) -> (r: Result<Vec<Stmt>, ParseError>)
        requires
            old(self).wf(),
        ensures
            pframe(*old(self), *final(self)),
            r is Ok ==> sp_parse(ptoks(*old(self)), old(self).current as int) == Ok::<
                (Seq<StmtModel>, int),
                ParseError,
            >((crate::ast::stmts_model((r->Ok_0)@), final(self).current as int)),
            r is Err ==> sp_parse(ptoks(*old(self)), old(self).current as int) == Err::<
                (Seq<StmtModel>, int),
                ParseError,
            >(r->Err_0),
        decreases self.tokens@.len() - self.current, 13int,
    {
        proof {
            reveal(sp_parse);
            reveal(sp_statement);
        }
        if self.is_at_end() {
            let v: Vec<Stmt> = Vec::new();
            proof {
                assert(crate::ast::stmts_model(v@) =~= Seq::<StmtModel>::empty());
            }
            Ok(v)
        } else {
            let s = match self.statement() {
                Err(e) => {
                    return Err(e);
                },
                Ok(x) => x,
            };
            let mut rest = match self.parse() {
                Err(e) => {
                    return Err(e);
                },
                Ok(v) => v,
            };
            let ghost rest0 = rest@;
            let ghost sm = s.model();
            let mut v: Vec<Stmt> = Vec::new();
            v.push(s);
            v.append(&mut rest);
            proof {
                assert(v@ =~= seq![v@[0]] + rest0);
                crate::ast::lemma_stmts_model_len(v@);
                crate::ast::lemma_stmts_model_len(rest0);
                assert forall|i: int| 0 <= i < v@.len() implies crate::ast::stmts_model(v@)[i] == (
                seq![sm] + crate::ast::stmts_model(rest0))[i] by {
                    if i == 0 {
                        assert(crate::ast::stmts_model(v@)[0] == v@[0].model());
                    } else {
                        assert(v@[i] == rest0[i - 1]);
                        assert(crate::ast::stmts_model(v@)[i] == v@[i].model());
                        assert(crate::ast::stmts_model(rest0)[i - 1] == rest0[i - 1].model());
                    }
                }
                assert(crate::ast::stmts_model(v@) =~= seq![sm] + crate::ast::stmts_model(rest0));
            }
            Ok(v)
        }
    }

    #[verifier::rlimit(50)]
    #[verifier::spinoff_prover]
    pub fn expression(&mut self) -> (r: Result<Expr, ParseError>)
        requires
            old(self).wf(),
            cur_ok(ptoks(*old(self)), old(self).current as int),
        ensures
            pframe(*old(self), *final(self)),
            cur_ok(ptoks(*final(self)), final(self).current as int),
            !sp_at_end(ptoks(*old(self)), old(self).current as int) && r is Ok ==> old(self).current < final(self).current,
            r is Ok ==> sp_expression(ptoks(*old(self)), old(self).current as int) == Ok::<
                (ExprModel, int),
                ParseError,
            >(((r->Ok_0).model(), final(self).current as int)),
            r is Err ==> sp_expression(ptoks(*old(self)), old(self).current as int) == Err::<
                (ExprModel, int),
                ParseError,
            >(r->Err_0),
        decreases self.tokens@.len() - self.current, 9int,
    {
        proof {
            reveal(sp_expression);
            reveal(sp_assignment);
        }
        self.assignment()
    }
}

/// Parse a token stream into the program it spells, or the first
/// unexpected token's error — exactly `spec_parse` of the tokens' models.
pub fn parse(tokens: Vec<Token>) -> (r: Result<Vec<Stmt>, ParseError>)
    ensures
        r is Ok ==> spec_parse(tokens_model(tokens@)) == Ok::<Seq<StmtModel>, ParseError>(
            crate::ast::stmts_model((r->Ok_0)@),
        ),
        r is Err ==> spec_parse(tokens_model(tokens@)) == Err::<Seq<StmtModel>, ParseError>(
            r->Err_0,
        ),
{
    let mut parser = Parser::new(tokens);
    parser.parse()
}

} // verus!
