//! The extractor parser: a recursive-descent parser from tokens to a
//! `Program`.

use vstd::prelude::*;
use crate::ast::{Expression, ExpressionKind, Statement, StatementKind, SwitchArm, SwitchPattern, ObjectField, InterpolatedStringPart, FunctionDefinition, TestBlock, TestInput, Program, expr_view, stmt_view, stmts_view, exprs_view, arm_view, arms_view, fields_view, iparts_view, strings_view, test_inputs_view, functions_view, tests_view, program_view, lemma_exprs_push, lemma_stmts_push, lemma_arms_push, lemma_fields_push, lemma_iparts_push, lemma_strings_push, lemma_test_inputs_push, lemma_functions_push, lemma_tests_push, lemma_arms_index, lemma_arms_len, ExprV, ExprKindV, IPartV, FieldV, ArmV, PatternV, StmtV, StmtKindV, TestInputV, TestBlockV, FunctionV, ProgramV, AssignmentOperator, BinaryOperator, UnaryOperator, Visibility};
use crate::diagnostic::{CompileError, Diagnostic, DiagnosticV, diag};
use crate::lexer::{lex, spec_lex};
use crate::source::Span;
use crate::text::{str_eq, string_push};
use crate::token::{
    InterpolatedTokenPart, PartV, Token, TokenKind, TokenKindV, TokenV, kind_view,
    lemma_parts_view_index, lemma_tokens_view_index, lemma_tokens_view_len, part_view,
    parts_view, token_view, tokens_view,
};

verus! {

/// A parse result: the value and the position after it, or a diagnostic.
pub type PRes<T> = Result<(T, int), DiagnosticV>;

/// Which kind a token is, ignoring its payload.
#[verifier::opaque]
pub open spec fn tag(k: TokenKindV) -> u8 {
    match k {
        TokenKindV::Identifier(_) => 0,
        TokenKindV::Number(_) => 1,
        TokenKindV::Str(_) => 2,
        TokenKindV::InterpolatedString(_) => 3,
        TokenKindV::Dot => 4,
        TokenKindV::At => 5,
        TokenKindV::Bang => 6,
        TokenKindV::Equal => 7,
        TokenKindV::EqualEqual => 8,
        TokenKindV::BangEqual => 9,
        TokenKindV::AmpAmp => 10,
        TokenKindV::PipePipe => 11,
        TokenKindV::Less => 12,
        TokenKindV::LessEqual => 13,
        TokenKindV::Greater => 14,
        TokenKindV::GreaterEqual => 15,
        TokenKindV::FatArrow => 16,
        TokenKindV::Plus => 17,
        TokenKindV::PlusEqual => 18,
        TokenKindV::Minus => 19,
        TokenKindV::MinusEqual => 20,
        TokenKindV::Star => 21,
        TokenKindV::Slash => 22,
        TokenKindV::Percent => 23,
        TokenKindV::LeftParen => 24,
        TokenKindV::RightParen => 25,
        TokenKindV::LeftBrace => 26,
        TokenKindV::RightBrace => 27,
        TokenKindV::LeftBracket => 28,
        TokenKindV::RightBracket => 29,
        TokenKindV::Comma => 30,
        TokenKindV::Colon => 31,
        TokenKindV::Eof => 32,
    }
}

pub open spec fn eof_token() -> TokenV {
    TokenV { kind: TokenKindV::Eof, span: Span { start: 0, end: 0 } }
}

/// The token at `i`; past the end, an end-of-input token. (Token sequences
/// from the lexer end with an end-of-input token, which the parser never
/// moves past, so it never reads beyond that.)
pub open spec fn tk(t: Seq<TokenV>, i: int) -> TokenV {
    if 0 <= i < t.len() {
        t[i]
    } else {
        eof_token()
    }
}

#[verifier::opaque]
pub open spec fn at(t: Seq<TokenV>, p: int, k: TokenKindV) -> bool {
    tag(tk(t, p).kind) == tag(k)
}

/// The position after advancing once from `p`; the parser never moves past
/// the end of input.
pub open spec fn adv(t: Seq<TokenV>, p: int) -> int {
    if tk(t, p).kind is Eof {
        p
    } else {
        p + 1
    }
}

pub open spec fn ident_at(t: Seq<TokenV>, i: int) -> Option<Seq<char>> {
    match tk(t, i).kind {
        TokenKindV::Identifier(name) => Some(name),
        _ => None,
    }
}

pub open spec fn is_ident(t: Seq<TokenV>, i: int, word: Seq<char>) -> bool {
    ident_at(t, i) == Some(word)
}

pub open spec fn span2(start: usize, end: usize) -> Span {
    Span { start, end }
}

pub open spec fn mk_expr(kind: ExprKindV, span: Span) -> ExprV {
    ExprV { kind, span }
}

pub open spec fn mk_stmt(kind: StmtKindV, span: Span) -> StmtV {
    StmtV { kind, span }
}

/// `expect`: the position after a token of kind `k`, or the diagnostic.
pub open spec fn expect(t: Seq<TokenV>, p: int, k: TokenKindV, message: Seq<char>) -> Result<int, DiagnosticV> {
    if at(t, p, k) {
        Ok(adv(t, p))
    } else {
        Err(diag(message, tk(t, p).span))
    }
}

/// `take_identifier`: the identifier at `p` with its span, or the diagnostic.
pub open spec fn take_ident(t: Seq<TokenV>, p: int, message: Seq<char>) -> Result<(Seq<char>, Span), DiagnosticV> {
    match tk(t, p).kind {
        TokenKindV::Identifier(name) => Ok((name, tk(t, p).span)),
        _ => Err(diag(message, tk(t, p).span)),
    }
}

pub open spec fn assignment_operator(k: TokenKindV) -> Option<AssignmentOperator> {
    match k {
        TokenKindV::Equal => Some(AssignmentOperator::Assign),
        TokenKindV::PlusEqual => Some(AssignmentOperator::Add),
        TokenKindV::MinusEqual => Some(AssignmentOperator::Subtract),
        _ => None,
    }
}

/// Names that start with `_` are private.
pub open spec fn visibility_for(name: Seq<char>) -> Visibility {
    if name.len() > 0 && name[0] == '_' {
        Visibility::Private
    } else {
        Visibility::Public
    }
}

pub open spec fn binary_operator(k: TokenKindV) -> Option<(BinaryOperator, u8)> {
    match k {
        TokenKindV::PipePipe => Some((BinaryOperator::Or, 1u8)),
        TokenKindV::AmpAmp => Some((BinaryOperator::And, 2u8)),
        TokenKindV::EqualEqual => Some((BinaryOperator::Equal, 3u8)),
        TokenKindV::BangEqual => Some((BinaryOperator::NotEqual, 3u8)),
        TokenKindV::Less => Some((BinaryOperator::Less, 4u8)),
        TokenKindV::LessEqual => Some((BinaryOperator::LessEqual, 4u8)),
        TokenKindV::Greater => Some((BinaryOperator::Greater, 4u8)),
        TokenKindV::GreaterEqual => Some((BinaryOperator::GreaterEqual, 4u8)),
        TokenKindV::Plus => Some((BinaryOperator::Add, 5u8)),
        TokenKindV::Minus => Some((BinaryOperator::Subtract, 5u8)),
        TokenKindV::Star => Some((BinaryOperator::Multiply, 6u8)),
        TokenKindV::Slash => Some((BinaryOperator::Divide, 6u8)),
        TokenKindV::Percent => Some((BinaryOperator::Remainder, 6u8)),
        _ => None,
    }
}

/// `is_computed_assignment`: scans from `i` with bracket `depth` for the
/// bracket that closes the one at the start, then looks for `=`.
pub open spec fn computed_scan(t: Seq<TokenV>, i: int, depth: nat) -> bool
    decreases t.len() - i,
{
    if i < 0 || i >= t.len() {
        false
    } else if t[i].kind is LeftBracket {
        computed_scan(t, i + 1, depth + 1)
    } else if t[i].kind is RightBracket {
        let d: nat = if depth > 0 { (depth - 1) as nat } else { 0 };
        if d == 0 {
            i + 1 < t.len() && t[i + 1].kind is Equal
        } else {
            computed_scan(t, i + 1, d)
        }
    } else if t[i].kind is Eof {
        false
    } else {
        computed_scan(t, i + 1, depth)
    }
}

pub open spec fn is_computed_assignment(t: Seq<TokenV>, p: int) -> bool {
    at(t, p, TokenKindV::LeftBracket) && computed_scan(t, p, 0)
}

/// `next_if_starts_block`: whether a `{` comes before `else` at bracket
/// depth zero.
pub open spec fn block_scan(t: Seq<TokenV>, i: int, parens: nat, brackets: nat) -> bool
    decreases t.len() - i,
{
    if i < 0 || i >= t.len() {
        false
    } else {
        let k = t[i].kind;
        if k is LeftParen {
            block_scan(t, i + 1, parens + 1, brackets)
        } else if k is RightParen {
            block_scan(t, i + 1, if parens > 0 { (parens - 1) as nat } else { 0 }, brackets)
        } else if k is LeftBracket {
            block_scan(t, i + 1, parens, brackets + 1)
        } else if k is RightBracket {
            block_scan(t, i + 1, parens, if brackets > 0 { (brackets - 1) as nat } else { 0 })
        } else if k is LeftBrace && parens == 0 && brackets == 0 {
            true
        } else if k == TokenKindV::Identifier("else"@) && parens == 0 && brackets == 0 {
            false
        } else if k is Eof {
            false
        } else {
            block_scan(t, i + 1, parens, brackets)
        }
    }
}

pub open spec fn next_if_starts_block(t: Seq<TokenV>, p: int) -> bool {
    block_scan(t, p + 1, 0, 0)
}

/// `is_parenthesized_lambda`: `(` name (`,` name)* `)` `=>`.
pub open spec fn paren_lambda_scan(t: Seq<TokenV>, i: int) -> bool
    decreases t.len() - i,
{
    if i >= 0 && i < t.len() && t[i].kind is Comma {
        if ident_at(t, i + 1) is None {
            false
        } else {
            paren_lambda_scan(t, i + 2)
        }
    } else {
        0 <= i < t.len() && t[i].kind is RightParen && i + 1 < t.len() && t[i + 1].kind is FatArrow
    }
}

pub open spec fn is_parenthesized_lambda(t: Seq<TokenV>, p: int) -> bool {
    at(t, p, TokenKindV::LeftParen) && ident_at(t, p + 1) is Some && paren_lambda_scan(t, p + 2)
}

/// Whether every character of a number is a digit (no decimal point).
#[verifier::opaque]
pub open spec fn all_digits(v: Seq<char>) -> bool {
    forall|i: int| 0 <= i < v.len() ==> crate::text::is_digit(#[trigger] v[i])
}

pub open spec fn is_catch_all(a: ArmV) -> bool {
    a.pattern is Wildcard || a.pattern is Binding
}

/// The first arm before the last one that is a catch-all pattern.
pub open spec fn first_early_catch_all(arms: Seq<ArmV>, i: int) -> Option<ArmV>
    decreases arms.len() - i,
{
    if i < 0 || i + 1 >= arms.len() {
        None
    } else if is_catch_all(arms[i]) {
        Some(arms[i])
    } else {
        first_early_catch_all(arms, i + 1)
    }
}

/// Whether a position `q` returned by a sub-parse lies after `p` and within
/// the tokens.
pub open spec fn moved(t: Seq<TokenV>, p: int, q: int) -> bool {
    p < q <= t.len()
}

pub open spec fn stuck<T>() -> PRes<T> {
    Err(diag(seq![], Span { start: 0, end: 0 }))
}

// ---------------------------------------------------------------------------
// Statements
// ---------------------------------------------------------------------------

pub open spec fn statement(t: Seq<TokenV>, p: int) -> PRes<StmtV>
    decreases t, t.len() - p, 20int,
{
    if p < 0 || p > t.len() {
        stuck()
    } else if is_ident(t, p, "fun"@) {
        Err(diag("function declarations are only allowed at top level"@, tk(t, p).span))
    } else if is_ident(t, p, "return"@) {
        let start = tk(t, p).span.start;
        match expression(t, p + 1) {
            Ok((v, q)) => Ok((mk_stmt(StmtKindV::Return(v), span2(start, v.span.end)), q)),
            Err(d) => Err(d),
        }
    } else if is_ident(t, p, "while"@) {
        let start = tk(t, p).span.start;
        match expression(t, p + 1) {
            Ok((c, q1)) => if !moved(t, p, q1) {
                stuck()
            } else {
                match block(t, q1) {
                    Ok((body, q2)) => Ok((
                        mk_stmt(
                            StmtKindV::While { condition: c, body },
                            span2(start, tk(t, q2 - 1).span.end),
                        ),
                        q2,
                    )),
                    Err(d) => Err(d),
                }
            },
            Err(d) => Err(d),
        }
    } else if is_ident(t, p, "loop"@) {
        let start = tk(t, p).span.start;
        match block(t, p + 1) {
            Ok((body, q)) => Ok((
                mk_stmt(StmtKindV::Loop { body }, span2(start, tk(t, q - 1).span.end)),
                q,
            )),
            Err(d) => Err(d),
        }
    } else if is_ident(t, p, "break"@) {
        Ok((mk_stmt(StmtKindV::Break, tk(t, p).span), p + 1))
    } else if ident_at(t, p) is Some && assignment_operator(tk(t, p + 1).kind) is Some && p + 1 < t.len() {
        assignment(t, p)
    } else if is_computed_assignment(t, p) {
        computed_assignment(t, p)
    } else {
        match expression(t, p) {
            Ok((e, q)) => Ok((mk_stmt(StmtKindV::Expression(e), e.span), q)),
            Err(d) => Err(d),
        }
    }
}

pub open spec fn assignment(t: Seq<TokenV>, p: int) -> PRes<StmtV>
    decreases t, t.len() - p, 15int,
{
    if p < 0 || p >= t.len() {
        stuck()
    } else {
        match take_ident(t, p, "expected assignment name"@) {
            Err(d) => Err(d),
            Ok((name, nspan)) => {
                let q = p + 1;
                match assignment_operator(tk(t, q).kind) {
                    None => Err(diag("expected assignment operator"@, tk(t, q).span)),
                    Some(operator) => match expression(t, adv(t, q)) {
                        Ok((value, q2)) => Ok((
                            mk_stmt(
                                StmtKindV::Assignment {
                                    name,
                                    operator,
                                    visibility: visibility_for(name),
                                    value,
                                },
                                span2(nspan.start, value.span.end),
                            ),
                            q2,
                        )),
                        Err(d) => Err(d),
                    },
                }
            },
        }
    }
}

pub open spec fn computed_assignment(t: Seq<TokenV>, p: int) -> PRes<StmtV>
    decreases t, t.len() - p, 15int,
{
    if p < 0 || p >= t.len() {
        stuck()
    } else {
        match expect(t, p, TokenKindV::LeftBracket, "expected `[` before computed assignment"@) {
            Err(d) => Err(d),
            Ok(q) => if !moved(t, p, q) {
                stuck()
            } else {
                let start = tk(t, p).span.start;
                match expression(t, q) {
                    Err(d) => Err(d),
                    Ok((name, q1)) => if !moved(t, q, q1) {
                        stuck()
                    } else {
                        match expect(t, q1, TokenKindV::RightBracket, "expected `]` after computed assignment name"@) {
                            Err(d) => Err(d),
                            Ok(q2) => match expect(t, q2, TokenKindV::Equal, "expected `=` after computed assignment name"@) {
                                Err(d) => Err(d),
                                Ok(q3) => if !moved(t, p, q3) {
                                    stuck()
                                } else {
                                    match expression(t, q3) {
                                        Err(d) => Err(d),
                                        Ok((value, q4)) => Ok((
                                            mk_stmt(
                                                StmtKindV::ComputedAssignment { name, value },
                                                span2(start, value.span.end),
                                            ),
                                            q4,
                                        )),
                                    }
                                },
                            },
                        }
                    },
                }
            },
        }
    }
}

/// Statements of a block from `p` up to its closing brace.
pub open spec fn block_stmts(t: Seq<TokenV>, p: int, acc: Seq<StmtV>) -> PRes<Seq<StmtV>>
    decreases t, t.len() - p, 21int,
{
    if p < 0 || p > t.len() {
        stuck()
    } else if at(t, p, TokenKindV::RightBrace) || at(t, p, TokenKindV::Eof) {
        Ok((acc, p))
    } else {
        match statement(t, p) {
            Err(d) => Err(d),
            Ok((s, q)) => if !moved(t, p, q) {
                stuck()
            } else {
                block_stmts(t, q, acc.push(s))
            },
        }
    }
}

pub open spec fn block(t: Seq<TokenV>, p: int) -> PRes<Seq<StmtV>>
    decreases t, t.len() - p, 6int,
{
    match expect(t, p, TokenKindV::LeftBrace, "expected `{` before block"@) {
        Err(d) => Err(d),
        Ok(q) => if !moved(t, p, q) {
            stuck()
        } else {
            match block_stmts(t, q, seq![]) {
                Err(d) => Err(d),
                Ok((stmts, q2)) => match expect(t, q2, TokenKindV::RightBrace, "expected `}` after block"@) {
                    Err(d) => Err(d),
                    Ok(q3) => Ok((stmts, q3)),
                },
            }
        }
    }
}

// ---------------------------------------------------------------------------
// Expressions
// ---------------------------------------------------------------------------

/// Parameters of a parenthesized lambda.
pub open spec fn lambda_params(t: Seq<TokenV>, p: int, acc: Seq<Seq<char>>) -> Result<(Seq<Seq<char>>, int), DiagnosticV>
    decreases t.len() - p,
{
    if p < 0 || p >= t.len() {
        Err(diag("expected lambda parameter"@, tk(t, p).span))
    } else {
        match take_ident(t, p, "expected lambda parameter"@) {
            Err(d) => Err(d),
            Ok((name, _)) => {
                let q = p + 1;
                if at(t, q, TokenKindV::Comma) && q + 1 <= t.len() {
                    lambda_params(t, q + 1, acc.push(name))
                } else {
                    Ok((acc.push(name), q))
                }
            },
        }
    }
}

pub open spec fn expression(t: Seq<TokenV>, p: int) -> PRes<ExprV>
    decreases t, t.len() - p, 14int,
{
    if p < 0 || p > t.len() {
        stuck()
    } else if is_ident(t, p, "if"@) {
        block_if_expression(t, p + 1, tk(t, p).span.start)
    } else if ident_at(t, p) is Some && at(t, p + 1, TokenKindV::FatArrow) && p + 1 < t.len() {
        let start = tk(t, p).span.start;
        match expression(t, p + 2) {
            Err(d) => Err(d),
            Ok((body, q)) => Ok((
                mk_expr(
                    ExprKindV::Lambda {
                        parameters: seq![ident_at(t, p)->Some_0],
                        body: Box::new(body),
                    },
                    span2(start, body.span.end),
                ),
                q,
            )),
        }
    } else if is_parenthesized_lambda(t, p) {
        let start = tk(t, p).span.start;
        match lambda_params(t, p + 1, seq![]) {
            Err(d) => Err(d),
            Ok((parameters, q)) => match expect(t, q, TokenKindV::RightParen, "expected `)` after lambda parameters"@) {
                Err(d) => Err(d),
                Ok(q2) => match expect(t, q2, TokenKindV::FatArrow, "expected `=>` after lambda parameters"@) {
                    Err(d) => Err(d),
                    Ok(q3) => if !moved(t, p, q3) {
                        stuck()
                    } else {
                        match expression(t, q3) {
                            Err(d) => Err(d),
                            Ok((body, q4)) => Ok((
                                mk_expr(
                                    ExprKindV::Lambda { parameters, body: Box::new(body) },
                                    span2(start, body.span.end),
                                ),
                                q4,
                            )),
                        }
                    },
                },
            },
        }
    } else {
        conditional(t, p)
    }
}

pub open spec fn conditional(t: Seq<TokenV>, p: int) -> PRes<ExprV>
    decreases t, t.len() - p, 13int,
{
    if p < 0 || p > t.len() {
        stuck()
    } else {
        match binary(t, p, 0) {
            Err(d) => Err(d),
            Ok((then_branch, p1)) => if !moved(t, p, p1) {
                stuck()
            } else if is_ident(t, p1, "if"@) && next_if_starts_block(t, p1) {
                Ok((then_branch, p1))
            } else if !is_ident(t, p1, "if"@) {
                Ok((then_branch, p1))
            } else {
                match binary(t, p1 + 1, 0) {
                    Err(d) => Err(d),
                    Ok((condition, p2)) => if !is_ident(t, p2, "else"@) {
                        Err(diag("expected `else` in conditional expression"@, tk(t, p2).span))
                    } else if !moved(t, p, p2 + 1) {
                        stuck()
                    } else {
                        match expression(t, p2 + 1) {
                            Err(d) => Err(d),
                            Ok((else_branch, p3)) => Ok((
                                mk_expr(
                                    ExprKindV::IfElse {
                                        condition: Box::new(condition),
                                        then_branch: Box::new(then_branch),
                                        else_branch: Box::new(else_branch),
                                    },
                                    span2(then_branch.span.start, else_branch.span.end),
                                ),
                                p3,
                            )),
                        }
                    },
                }
            },
        }
    }
}

pub open spec fn binary(t: Seq<TokenV>, p: int, min: u8) -> PRes<ExprV>
    decreases t, t.len() - p, 12int,
{
    if p < 0 || p > t.len() {
        stuck()
    } else {
        match unary(t, p) {
            Err(d) => Err(d),
            Ok((left, p1)) => if !moved(t, p, p1) {
                stuck()
            } else {
                binary_loop(t, p1, left, min)
            },
        }
    }
}

pub open spec fn binary_loop(t: Seq<TokenV>, p: int, left: ExprV, min: u8) -> PRes<ExprV>
    decreases t, t.len() - p, 11int,
{
    if p < 0 || p > t.len() {
        stuck()
    } else {
        match binary_operator(tk(t, p).kind) {
            None => Ok((left, p)),
            Some((operator, precedence)) => if precedence < min || p >= t.len() {
                Ok((left, p))
            } else {
                match binary(t, p + 1, (precedence + 1) as u8) {
                    Err(d) => Err(d),
                    Ok((right, p2)) => if !moved(t, p, p2) {
                        stuck()
                    } else {
                        binary_loop(
                            t,
                            p2,
                            mk_expr(
                                ExprKindV::Binary {
                                    left: Box::new(left),
                                    operator,
                                    right: Box::new(right),
                                },
                                span2(left.span.start, right.span.end),
                            ),
                            min,
                        )
                    },
                }
            },
        }
    }
}

pub open spec fn unary(t: Seq<TokenV>, p: int) -> PRes<ExprV>
    decreases t, t.len() - p, 10int,
{
    if p < 0 || p > t.len() {
        stuck()
    } else if (at(t, p, TokenKindV::Minus) || at(t, p, TokenKindV::Bang)) && p < t.len() {
        let operator = if at(t, p, TokenKindV::Minus) {
            UnaryOperator::Negate
        } else {
            UnaryOperator::Not
        };
        let start = tk(t, p).span.start;
        match unary(t, p + 1) {
            Err(d) => Err(d),
            Ok((operand, q)) => Ok((
                mk_expr(
                    ExprKindV::Unary { operator, operand: Box::new(operand) },
                    span2(start, operand.span.end),
                ),
                q,
            )),
        }
    } else {
        postfix(t, p)
    }
}

pub open spec fn postfix(t: Seq<TokenV>, p: int) -> PRes<ExprV>
    decreases t, t.len() - p, 9int,
{
    if p < 0 || p > t.len() {
        stuck()
    } else {
        match primary(t, p) {
            Err(d) => Err(d),
            Ok((e, p1)) => if !moved(t, p, p1) {
                stuck()
            } else {
                postfix_loop(t, p1, e)
            },
        }
    }
}

/// What follows a `.`: a name (a member), a non-negative integer (an
/// index), or an error.
pub enum DotTarget {
    Member(Seq<char>),
    Index(Seq<char>, Span),
    Fail(DiagnosticV),
}

/// The token after a `.`, at `q`.
pub open spec fn dot_target(t: Seq<TokenV>, q: int) -> DotTarget {
    match tk(t, q).kind {
        TokenKindV::Identifier(name) => DotTarget::Member(name),
        TokenKindV::Number(v) => if all_digits(v) {
            DotTarget::Index(v, tk(t, q).span)
        } else {
            DotTarget::Fail(diag("expected non-negative integer index after `.`"@, tk(t, q).span))
        },
        _ => DotTarget::Fail(diag("expected property name or non-negative integer after `.`"@, tk(t, q).span)),
    }
}


/// A postfix operator read after an expression, with the position after
/// it; the ending offsets are those of the operator's last token.
pub enum PostfixOp {
    /// No postfix operator follows.
    Stop,
    Fail(DiagnosticV),
    /// `.method { ... }`: the method, the body, the end offset.
    Block(Seq<char>, Seq<StmtV>, usize, int),
    /// `.name(...)` or `.name@(...)`: the name, whether `@` was given, the
    /// arguments, the end offset.
    Call(Seq<char>, bool, Seq<ExprV>, usize, int),
    /// `.name`: the name and its span.
    Property(Seq<char>, Span, int),
    /// `.0`: the digits and their span.
    Number(Seq<char>, Span, int),
    /// `!`: the end offset.
    Required(usize, int),
    /// `[index]`: the index and the end offset.
    Index(ExprV, usize, int),
}

/// The operator after `.` and the name at `q`: a functional block, a method
/// call, or a property.
pub open spec fn member_op(t: Seq<TokenV>, q: int, name: Seq<char>) -> PostfixOp
    decreases t, t.len() - q, 5int,
{
    if q < 0 || q >= t.len() || t[q].kind is Eof {
        PostfixOp::Fail(diag(seq![], Span { start: 0, end: 0 }))
    } else {
        let nspan = tk(t, q).span;
        let q1 = adv(t, q);
        if at(t, q1, TokenKindV::LeftBrace) {
            match block(t, q1) {
                Err(d) => PostfixOp::Fail(d),
                Ok((body, q2)) => PostfixOp::Block(name, body, tk(t, q2 - 1).span.end, q2),
            }
        } else if at(t, q1, TokenKindV::LeftParen) || at(t, q1, TokenKindV::At) {
            let multiple = at(t, q1, TokenKindV::At);
            let q2 = if multiple { adv(t, q1) } else { q1 };
            match arguments(t, q2) {
                Err(d) => PostfixOp::Fail(d),
                Ok((arguments, q3)) => PostfixOp::Call(name, multiple, arguments, tk(t, q3 - 1).span.end, q3),
            }
        } else {
            PostfixOp::Property(name, nspan, q1)
        }
    }
}

/// The postfix operator at `p`, if any.
pub open spec fn postfix_op(t: Seq<TokenV>, p: int) -> PostfixOp
    decreases t, t.len() - p, 7int,
{
    if p < 0 || p > t.len() {
        PostfixOp::Fail(diag(seq![], Span { start: 0, end: 0 }))
    } else if at(t, p, TokenKindV::Dot) && p < t.len() {
        match dot_target(t, p + 1) {
            DotTarget::Member(name) => member_op(t, p + 1, name),
            DotTarget::Index(v, sp) => PostfixOp::Number(v, sp, p + 2),
            DotTarget::Fail(d) => PostfixOp::Fail(d),
        }
    } else if at(t, p, TokenKindV::Bang) && p < t.len() {
        PostfixOp::Required(tk(t, p).span.end, p + 1)
    } else if at(t, p, TokenKindV::LeftBracket) && p < t.len() {
        if is_computed_assignment(t, p) {
            PostfixOp::Stop
        } else {
            match expression(t, p + 1) {
                Err(d) => PostfixOp::Fail(d),
                Ok((index, q1)) => match expect(t, q1, TokenKindV::RightBracket, "expected `]` after subscript index"@) {
                    Err(d) => PostfixOp::Fail(d),
                    Ok(q2) => PostfixOp::Index(index, tk(t, q2 - 1).span.end, q2),
                },
            }
        }
    } else {
        PostfixOp::Stop
    }
}

/// The expression an operator makes of `e`, and the position after it.
pub open spec fn apply_op(e: ExprV, op: PostfixOp) -> (ExprV, int) {
    let start = e.span.start;
    match op {
        PostfixOp::Block(method, body, end, q) => (
            mk_expr(ExprKindV::FunctionalBlock { receiver: Box::new(e), method, body }, span2(start, end)),
            q,
        ),
        PostfixOp::Call(name, multiple, arguments, end, q) => (
            mk_expr(ExprKindV::MethodCall { receiver: Box::new(e), name, multiple, arguments }, span2(start, end)),
            q,
        ),
        PostfixOp::Property(name, nspan, q) => (
            mk_expr(
                ExprKindV::Subscript { receiver: Box::new(e), index: Box::new(mk_expr(ExprKindV::Str(name), nspan)) },
                span2(start, nspan.end),
            ),
            q,
        ),
        PostfixOp::Number(v, sp, q) => (
            mk_expr(
                ExprKindV::Subscript { receiver: Box::new(e), index: Box::new(mk_expr(ExprKindV::Number(v), sp)) },
                span2(start, sp.end),
            ),
            q,
        ),
        PostfixOp::Required(end, q) => (mk_expr(ExprKindV::Required(Box::new(e)), span2(start, end)), q),
        PostfixOp::Index(index, end, q) => (
            mk_expr(ExprKindV::Subscript { receiver: Box::new(e), index: Box::new(index) }, span2(start, end)),
            q,
        ),
        _ => (e, 0),
    }
}

/// Postfix operators after `e` at `p`, applied left to right.
pub open spec fn postfix_loop(t: Seq<TokenV>, p: int, e: ExprV) -> PRes<ExprV>
    decreases t, t.len() - p, 8int,
{
    if p < 0 || p > t.len() {
        stuck()
    } else {
        match postfix_op(t, p) {
            PostfixOp::Stop => Ok((e, p)),
            PostfixOp::Fail(d) => Err(d),
            op => {
                let (e2, q) = apply_op(e, op);
                if !moved(t, p, q) {
                    stuck()
                } else {
                    postfix_loop(t, q, e2)
                }
            },
        }
    }
}

/// The parts of an interpolated string, each embedded expression parsed
/// from its own tokens.
pub open spec fn interp_parts(parts: Seq<PartV>, acc: Seq<IPartV>) -> Result<Seq<IPartV>, DiagnosticV>
    decreases parts, 0int, 0int,
{
    if parts.len() == 0 {
        Ok(acc)
    } else {
        match parts[0] {
            PartV::Literal(v) => interp_parts(parts.drop_first(), acc.push(IPartV::Literal(v))),
            PartV::Expression(ts) => match expression(ts, 0) {
                Err(d) => Err(d),
                Ok((e, q)) => if !at(ts, q, TokenKindV::Eof) {
                    Err(diag("expected end of interpolation expression"@, tk(ts, q).span))
                } else {
                    interp_parts(parts.drop_first(), acc.push(IPartV::Expression(e)))
                },
            },
        }
    }
}

pub open spec fn primary(t: Seq<TokenV>, p: int) -> PRes<ExprV>
    decreases t, t.len() - p, 7int,
{
    if p < 0 || p >= t.len() {
        Err(diag("expected expression"@, tk(t, p).span))
    } else {
        let token = t[p];
        let sp = token.span;
        let p1 = adv(t, p);
        match token.kind {
            TokenKindV::Str(v) => Ok((mk_expr(ExprKindV::Str(v), sp), p1)),
            TokenKindV::InterpolatedString(parts) => match interp_parts(parts, seq![]) {
                Err(d) => Err(d),
                Ok(ps) => Ok((mk_expr(ExprKindV::InterpolatedString(ps), sp), p1)),
            },
            TokenKindV::Number(v) => Ok((mk_expr(ExprKindV::Number(v), sp), p1)),
            TokenKindV::Identifier(name) => if name == "null"@ {
                Ok((mk_expr(ExprKindV::Null, sp), p1))
            } else if name == "true"@ || name == "false"@ {
                Ok((mk_expr(ExprKindV::Boolean(name == "true"@), sp), p1))
            } else if name == "switch"@ {
                switch_expression(t, p1, sp.start)
            } else if at(t, p1, TokenKindV::LeftParen) || at(t, p1, TokenKindV::At) {
                let multiple = at(t, p1, TokenKindV::At);
                let q = if multiple { adv(t, p1) } else { p1 };
                match arguments(t, q) {
                    Err(d) => Err(d),
                    Ok((arguments, q2)) => Ok((
                        mk_expr(
                            ExprKindV::FunctionCall {
                                name: if multiple { name.push('@') } else { name },
                                arguments,
                            },
                            span2(sp.start, tk(t, q2 - 1).span.end),
                        ),
                        q2,
                    )),
                }
            } else {
                Ok((mk_expr(ExprKindV::Variable(name), sp), p1))
            },
            TokenKindV::LeftParen => match expression(t, p1) {
                Err(d) => Err(d),
                Ok((e, q)) => match expect(t, q, TokenKindV::RightParen, "expected `)` after expression"@) {
                    Err(d) => Err(d),
                    Ok(q2) => Ok((e, q2)),
                },
            },
            TokenKindV::LeftBracket => array(t, p1, sp.start),
            TokenKindV::LeftBrace => object(t, p1, sp.start),
            _ => Err(diag("expected expression"@, sp)),
        }
    }
}

pub open spec fn block_if_expression(t: Seq<TokenV>, p: int, start: usize) -> PRes<ExprV>
    decreases t, t.len() - p, 22int,
{
    if p < 0 || p > t.len() {
        stuck()
    } else {
        match expression(t, p) {
            Err(d) => Err(d),
            Ok((condition, q)) => if !moved(t, p, q) {
                stuck()
            } else {
                match block(t, q) {
                    Err(d) => Err(d),
                    Ok((then_branch, q2)) => if !moved(t, p, q2) {
                        stuck()
                    } else if is_ident(t, q2, "else"@) {
                        match block(t, q2 + 1) {
                            Err(d) => Err(d),
                            Ok((else_branch, q3)) => Ok((
                                mk_expr(
                                    ExprKindV::BlockIf {
                                        condition: Box::new(condition),
                                        then_branch,
                                        else_branch: Some(else_branch),
                                    },
                                    span2(start, tk(t, q3 - 1).span.end),
                                ),
                                q3,
                            )),
                        }
                    } else {
                        Ok((
                            mk_expr(
                                ExprKindV::BlockIf {
                                    condition: Box::new(condition),
                                    then_branch,
                                    else_branch: None,
                                },
                                span2(start, tk(t, q2 - 1).span.end),
                            ),
                            q2,
                        ))
                    },
                }
            },
        }
    }
}

pub open spec fn switch_arm(t: Seq<TokenV>, p: int) -> PRes<ArmV>
    decreases t, t.len() - p, 20int,
{
    if p < 0 || p > t.len() {
        stuck()
    } else {
        let start = tk(t, p).span.start;
        let pat: Result<(PatternV, int), DiagnosticV> = if ident_at(t, p) is Some && at(t, p + 1, TokenKindV::FatArrow) && p + 1 < t.len() {
            let name = ident_at(t, p)->Some_0;
            Ok((if name == "_"@ { PatternV::Wildcard } else { PatternV::Binding(name) }, p + 1))
        } else {
            match expression(t, p) {
                Err(d) => Err(d),
                Ok((v, q)) => Ok((PatternV::Value(v), q)),
            }
        };
        match pat {
            Err(d) => Err(d),
            Ok((pattern, q)) => match expect(t, q, TokenKindV::FatArrow, "expected `=>` after switch pattern"@) {
                Err(d) => Err(d),
                Ok(q2) => if !moved(t, p, q2) {
                    stuck()
                } else {
                    match expression(t, q2) {
                        Err(d) => Err(d),
                        Ok((value, q3)) => Ok((
                            ArmV { pattern, value, span: span2(start, value.span.end) },
                            q3,
                        )),
                    }
                },
            },
        }
    }
}

pub open spec fn switch_arms(t: Seq<TokenV>, p: int, acc: Seq<ArmV>) -> PRes<Seq<ArmV>>
    decreases t, t.len() - p, 21int,
{
    if p < 0 || p > t.len() {
        stuck()
    } else if at(t, p, TokenKindV::RightBrace) || at(t, p, TokenKindV::Eof) {
        Ok((acc, p))
    } else {
        match switch_arm(t, p) {
            Err(d) => Err(d),
            Ok((arm, q)) => if !moved(t, p, q) {
                stuck()
            } else if !at(t, q, TokenKindV::Comma) {
                Ok((acc.push(arm), q))
            } else if at(t, adv(t, q), TokenKindV::RightBrace) {
                Ok((acc.push(arm), adv(t, q)))
            } else {
                switch_arms(t, adv(t, q), acc.push(arm))
            },
        }
    }
}

pub open spec fn switch_expression(t: Seq<TokenV>, p: int, start: usize) -> PRes<ExprV>
    decreases t, t.len() - p, 6int,
{
    match expect(t, p, TokenKindV::LeftParen, "expected `(` after `switch`"@) {
        Err(d) => Err(d),
        Ok(q) => if !moved(t, p, q) {
            stuck()
        } else {
            match expression(t, q) {
                Err(d) => Err(d),
                Ok((target, q1)) => match expect(t, q1, TokenKindV::RightParen, "expected `)` after switch target"@) {
                    Err(d) => Err(d),
                    Ok(q2) => match expect(t, q2, TokenKindV::LeftBrace, "expected `{` before switch arms"@) {
                        Err(d) => Err(d),
                        Ok(q3) => if !moved(t, p, q3) {
                            stuck()
                        } else {
                            match switch_arms(t, q3, seq![]) {
                                Err(d) => Err(d),
                                Ok((arms, q4)) => if !at(t, q4, TokenKindV::RightBrace) {
                                    Err(diag("expected `}` after switch arms"@, tk(t, q4).span))
                                } else {
                                    let end = tk(t, q4).span.end;
                                    match first_early_catch_all(arms, 0) {
                                        Some(arm) => Err(diag(
                                            "only the final switch arm can be `_ => ...` or `name => ...`"@,
                                            arm.span,
                                        )),
                                        None => if arms.len() == 0 || !is_catch_all(arms.last()) {
                                            Err(diag(
                                                "final switch arm must be `_ => ...` or `name => ...`"@,
                                                span2(start, end),
                                            ))
                                        } else {
                                            Ok((
                                                mk_expr(
                                                    ExprKindV::Switch { target: Box::new(target), arms },
                                                    span2(start, end),
                                                ),
                                                adv(t, q4),
                                            ))
                                        },
                                    }
                                },
                            }
                        },
                    },
                },
            }
        },
    }
}

/// Comma-separated expressions up to `close`; a trailing comma before
/// `close` is allowed when `trailing`.
pub open spec fn expr_list(t: Seq<TokenV>, p: int, acc: Seq<ExprV>, close: TokenKindV, trailing: bool) -> PRes<Seq<ExprV>>
    decreases t, t.len() - p, 21int,
{
    if p < 0 || p > t.len() {
        stuck()
    } else {
        match expression(t, p) {
            Err(d) => Err(d),
            Ok((v, q)) => if !moved(t, p, q) {
                stuck()
            } else if !at(t, q, TokenKindV::Comma) {
                Ok((acc.push(v), q))
            } else if trailing && at(t, adv(t, q), close) {
                Ok((acc.push(v), adv(t, q)))
            } else {
                expr_list(t, adv(t, q), acc.push(v), close, trailing)
            },
        }
    }
}

pub open spec fn array(t: Seq<TokenV>, p: int, start: usize) -> PRes<ExprV>
    decreases t, t.len() - p, 22int,
{
    let items: PRes<Seq<ExprV>> = if at(t, p, TokenKindV::RightBracket) {
        Ok((seq![], p))
    } else {
        expr_list(t, p, seq![], TokenKindV::RightBracket, true)
    };
    match items {
        Err(d) => Err(d),
        Ok((values, q)) => match expect(t, q, TokenKindV::RightBracket, "expected `]` after array"@) {
            Err(d) => Err(d),
            Ok(q2) => Ok((mk_expr(ExprKindV::Array(values), span2(start, tk(t, q).span.end)), q2)),
        },
    }
}

pub open spec fn object_fields(t: Seq<TokenV>, p: int, acc: Seq<FieldV>) -> PRes<Seq<FieldV>>
    decreases t, t.len() - p, 21int,
{
    if p < 0 || p > t.len() {
        stuck()
    } else {
        match take_ident(t, p, "expected object field name"@) {
            Err(d) => Err(d),
            Ok((name, nspan)) => match expect(t, p + 1, TokenKindV::Colon, "expected `:` after object field name"@) {
                Err(d) => Err(d),
                Ok(q) => if !moved(t, p, q) {
                    stuck()
                } else {
                    match expression(t, q) {
                        Err(d) => Err(d),
                        Ok((value, q2)) => {
                            let f = FieldV { name, value, span: span2(nspan.start, value.span.end) };
                            if !moved(t, p, q2) {
                                stuck()
                            } else if !at(t, q2, TokenKindV::Comma) {
                                Ok((acc.push(f), q2))
                            } else if at(t, adv(t, q2), TokenKindV::RightBrace) {
                                Ok((acc.push(f), adv(t, q2)))
                            } else {
                                object_fields(t, adv(t, q2), acc.push(f))
                            }
                        },
                    }
                },
            },
        }
    }
}

pub open spec fn object(t: Seq<TokenV>, p: int, start: usize) -> PRes<ExprV>
    decreases t, t.len() - p, 22int,
{
    let items: PRes<Seq<FieldV>> = if at(t, p, TokenKindV::RightBrace) {
        Ok((seq![], p))
    } else {
        object_fields(t, p, seq![])
    };
    match items {
        Err(d) => Err(d),
        Ok((fields, q)) => match expect(t, q, TokenKindV::RightBrace, "expected `}` after object"@) {
            Err(d) => Err(d),
            Ok(q2) => Ok((mk_expr(ExprKindV::Object(fields), span2(start, tk(t, q).span.end)), q2)),
        },
    }
}

pub open spec fn arguments(t: Seq<TokenV>, p: int) -> PRes<Seq<ExprV>>
    decreases t, t.len() - p, 6int,
{
    match expect(t, p, TokenKindV::LeftParen, "expected `(` before arguments"@) {
        Err(d) => Err(d),
        Ok(q) => if !moved(t, p, q) {
            stuck()
        } else {
            let items: PRes<Seq<ExprV>> = if at(t, q, TokenKindV::RightParen) {
                Ok((seq![], q))
            } else {
                expr_list(t, q, seq![], TokenKindV::RightParen, false)
            };
            match items {
                Err(d) => Err(d),
                Ok((args, q2)) => match expect(t, q2, TokenKindV::RightParen, "expected `)` after arguments"@) {
                    Err(d) => Err(d),
                    Ok(q3) => Ok((args, q3)),
                },
            }
        },
    }
}

// ---------------------------------------------------------------------------
// Top level
// ---------------------------------------------------------------------------

/// Comma-separated identifiers up to `)` (function parameters).
pub open spec fn params(t: Seq<TokenV>, p: int, acc: Seq<Seq<char>>) -> Result<(Seq<Seq<char>>, int), DiagnosticV>
    decreases t.len() - p,
{
    if p < 0 || p >= t.len() {
        Err(diag("expected parameter name"@, tk(t, p).span))
    } else {
        match take_ident(t, p, "expected parameter name"@) {
            Err(d) => Err(d),
            Ok((name, _)) => {
                let q = p + 1;
                if !at(t, q, TokenKindV::Comma) {
                    Ok((acc.push(name), q))
                } else if at(t, adv(t, q), TokenKindV::RightParen) {
                    Ok((acc.push(name), adv(t, q)))
                } else {
                    params(t, adv(t, q), acc.push(name))
                }
            },
        }
    }
}

pub open spec fn function_definition(t: Seq<TokenV>, p: int) -> PRes<FunctionV> {
    if !is_ident(t, p, "fun"@) {
        Err(diag("expected `fun` before function declaration"@, tk(t, p).span))
    } else {
        let start = tk(t, p).span.start;
        match take_ident(t, p + 1, "expected function name after `fun`"@) {
            Err(d) => Err(d),
            Ok((name, _)) => match expect(t, p + 2, TokenKindV::LeftParen, "expected `(` after function name"@) {
                Err(d) => Err(d),
                Ok(q) => {
                    let ps: Result<(Seq<Seq<char>>, int), DiagnosticV> = if at(t, q, TokenKindV::RightParen) {
                        Ok((seq![], q))
                    } else {
                        params(t, q, seq![])
                    };
                    match ps {
                        Err(d) => Err(d),
                        Ok((parameters, q2)) => match expect(t, q2, TokenKindV::RightParen, "expected `)` after function parameters"@) {
                            Err(d) => Err(d),
                            Ok(q3) => match block(t, q3) {
                                Err(d) => Err(d),
                                Ok((body, q4)) => Ok((
                                    FunctionV { name, parameters, body, span: span2(start, tk(t, q4 - 1).span.end) },
                                    q4,
                                )),
                            },
                        },
                    }
                },
            },
        }
    }
}

pub open spec fn test_inputs(t: Seq<TokenV>, p: int, acc: Seq<TestInputV>) -> PRes<Seq<TestInputV>>
    decreases t.len() - p,
{
    if p < 0 || p >= t.len() {
        Err(diag("expected test input name"@, tk(t, p).span))
    } else {
        match take_ident(t, p, "expected test input name"@) {
            Err(d) => Err(d),
            Ok((name, nspan)) => match expect(t, p + 1, TokenKindV::Equal, "expected `=` after test input name"@) {
                Err(d) => Err(d),
                Ok(q) => match expression(t, q) {
                    Err(d) => Err(d),
                    Ok((value, q2)) => {
                        let input = TestInputV {
                            name,
                            visibility: visibility_for(name),
                            value,
                            span: span2(nspan.start, value.span.end),
                        };
                        if !moved(t, p, q2) {
                            stuck()
                        } else if !at(t, q2, TokenKindV::Comma) {
                            Ok((acc.push(input), q2))
                        } else if at(t, adv(t, q2), TokenKindV::RightParen) {
                            Ok((acc.push(input), adv(t, q2)))
                        } else {
                            test_inputs(t, adv(t, q2), acc.push(input))
                        }
                    },
                },
            },
        }
    }
}

pub open spec fn test_block(t: Seq<TokenV>, p: int) -> PRes<TestBlockV> {
    if !is_ident(t, p, "test"@) {
        Err(diag("expected `test` before test block"@, tk(t, p).span))
    } else {
        let start = tk(t, p).span.start;
        let q = p + 1;
        let header: PRes<(Seq<TestInputV>, bool)> = if at(t, q, TokenKindV::LeftParen) {
            let q1 = adv(t, q);
            let ins: PRes<Seq<TestInputV>> = if at(t, q1, TokenKindV::RightParen) {
                Ok((seq![], q1))
            } else {
                test_inputs(t, q1, seq![])
            };
            match ins {
                Err(d) => Err(d),
                Ok((inputs, q2)) => match expect(t, q2, TokenKindV::RightParen, "expected `)` after test inputs"@) {
                    Err(d) => Err(d),
                    Ok(q3) => Ok(((inputs, true), q3)),
                },
            }
        } else {
            Ok(((seq![], false), q))
        };
        match header {
            Err(d) => Err(d),
            Ok(((inputs, runs_script), q4)) => match block(t, q4) {
                Err(d) => Err(d),
                Ok((body, q5)) => Ok((
                    TestBlockV { inputs, body, runs_script, span: span2(start, tk(t, q5 - 1).span.end) },
                    q5,
                )),
            },
        }
    }
}

/// Top-level items from `p` to the end of input.
pub open spec fn program_items(
    t: Seq<TokenV>,
    p: int,
    fns: Seq<FunctionV>,
    tests: Seq<TestBlockV>,
    stmts: Seq<StmtV>,
) -> Result<ProgramV, DiagnosticV>
    decreases t.len() - p,
{
    if p < 0 || p > t.len() {
        Err(diag(seq![], Span { start: 0, end: 0 }))
    } else if at(t, p, TokenKindV::Eof) {
        Ok(ProgramV { functions: fns, tests, statements: stmts, span: span2(0, tk(t, p).span.end) })
    } else if is_ident(t, p, "fun"@) {
        match function_definition(t, p) {
            Err(d) => Err(d),
            Ok((f, q)) => if !moved(t, p, q) {
                Err(diag(seq![], Span { start: 0, end: 0 }))
            } else {
                program_items(t, q, fns.push(f), tests, stmts)
            },
        }
    } else if is_ident(t, p, "test"@) && (at(t, p + 1, TokenKindV::LeftParen) || at(t, p + 1, TokenKindV::LeftBrace)) && p + 1 < t.len() {
        match test_block(t, p) {
            Err(d) => Err(d),
            Ok((b, q)) => if !moved(t, p, q) {
                Err(diag(seq![], Span { start: 0, end: 0 }))
            } else {
                program_items(t, q, fns, tests.push(b), stmts)
            },
        }
    } else {
        match statement(t, p) {
            Err(d) => Err(d),
            Ok((s, q)) => if !moved(t, p, q) {
                Err(diag(seq![], Span { start: 0, end: 0 }))
            } else {
                program_items(t, q, fns, tests, stmts.push(s))
            },
        }
    }
}

pub open spec fn parse_tokens(t: Seq<TokenV>) -> Result<ProgramV, DiagnosticV> {
    program_items(t, 0, seq![], seq![], seq![])
}

/// The program that `source` parses to, or the diagnostic of the first
/// lexical or syntax error.
pub open spec fn spec_parse(source: Seq<char>) -> Result<ProgramV, DiagnosticV> {
    match spec_lex(source) {
        Err(d) => Err(d),
        Ok(t) => parse_tokens(t),
    }
}


// ---------------------------------------------------------------------------
// Executable parser
// ---------------------------------------------------------------------------

pub open spec fn tv(t: &Vec<Token>) -> Seq<TokenV> {
    tokens_view(t@)
}

pub open spec fn expr_res(r: Result<(Expression, usize), Diagnostic>) -> PRes<ExprV> {
    match r {
        Ok((e, q)) => Ok((expr_view(e), q as int)),
        Err(d) => Err(d@),
    }
}

pub open spec fn stmt_res(r: Result<(Statement, usize), Diagnostic>) -> PRes<StmtV> {
    match r {
        Ok((e, q)) => Ok((stmt_view(e), q as int)),
        Err(d) => Err(d@),
    }
}

pub open spec fn stmts_res(r: Result<(Vec<Statement>, usize), Diagnostic>) -> PRes<Seq<StmtV>> {
    match r {
        Ok((e, q)) => Ok((stmts_view(e@), q as int)),
        Err(d) => Err(d@),
    }
}

pub open spec fn exprs_res(r: Result<(Vec<Expression>, usize), Diagnostic>) -> PRes<Seq<ExprV>> {
    match r {
        Ok((e, q)) => Ok((exprs_view(e@), q as int)),
        Err(d) => Err(d@),
    }
}

pub open spec fn arm_res(r: Result<(SwitchArm, usize), Diagnostic>) -> PRes<ArmV> {
    match r {
        Ok((e, q)) => Ok((arm_view(e), q as int)),
        Err(d) => Err(d@),
    }
}

pub open spec fn pos_res(r: Result<usize, Diagnostic>) -> Result<int, DiagnosticV> {
    match r {
        Ok(q) => Ok(q as int),
        Err(d) => Err(d@),
    }
}

/// Whether a result's position lies after `p` and within the tokens.
pub open spec fn advanced<T>(r: Result<(T, usize), Diagnostic>, p: int, n: int) -> bool {
    r matches Ok((_, q)) ==> p < q <= n
}

pub(crate) fn kind_tag(k: &TokenKind) -> (r: u8)
    ensures
        r == tag(kind_view(*k)),
{
    reveal(tag);
    reveal(at);
    match k {
        TokenKind::Identifier(_) => 0,
        TokenKind::Number(_) => 1,
        TokenKind::String(_) => 2,
        TokenKind::InterpolatedString(_) => 3,
        TokenKind::Dot => 4,
        TokenKind::At => 5,
        TokenKind::Bang => 6,
        TokenKind::Equal => 7,
        TokenKind::EqualEqual => 8,
        TokenKind::BangEqual => 9,
        TokenKind::AmpAmp => 10,
        TokenKind::PipePipe => 11,
        TokenKind::Less => 12,
        TokenKind::LessEqual => 13,
        TokenKind::Greater => 14,
        TokenKind::GreaterEqual => 15,
        TokenKind::FatArrow => 16,
        TokenKind::Plus => 17,
        TokenKind::PlusEqual => 18,
        TokenKind::Minus => 19,
        TokenKind::MinusEqual => 20,
        TokenKind::Star => 21,
        TokenKind::Slash => 22,
        TokenKind::Percent => 23,
        TokenKind::LeftParen => 24,
        TokenKind::RightParen => 25,
        TokenKind::LeftBrace => 26,
        TokenKind::RightBrace => 27,
        TokenKind::LeftBracket => 28,
        TokenKind::RightBracket => 29,
        TokenKind::Comma => 30,
        TokenKind::Colon => 31,
        TokenKind::Eof => 32,
    }
}

pub(crate) fn tag_at(t: &Vec<Token>, i: usize) -> (r: u8)
    ensures
        r == tag(tk(tv(t), i as int).kind),
        r != 32 ==> i < t@.len(),
        t@.len() <= usize::MAX,
{
    reveal(tag);
    reveal(at);
    proof {
        lemma_tokens_view_len(t@);
    }
    if i < t.len() {
        proof {
            lemma_tokens_view_index(t@, i as int);
        }
        kind_tag(&t[i].kind)
    } else {
        32
    }
}

pub(crate) fn span_at(t: &Vec<Token>, i: usize) -> (r: Span)
    ensures
        r == tk(tv(t), i as int).span,
        t@.len() <= usize::MAX,
{
    proof {
        lemma_tokens_view_len(t@);
    }
    if i < t.len() {
        proof {
            lemma_tokens_view_index(t@, i as int);
        }
        t[i].span
    } else {
        Span::new(0, 0)
    }
}

pub(crate) fn at_exec(t: &Vec<Token>, p: usize, k: &TokenKind) -> (r: bool)
    ensures
        r == at(tv(t), p as int, kind_view(*k)),
        r && !(kind_view(*k) is Eof) ==> p < t@.len() && !(tk(tv(t), p as int).kind is Eof),
        t@.len() <= usize::MAX,
{
    reveal(at);
    reveal(tag);
    tag_at(t, p) == kind_tag(k)
}

pub(crate) fn adv_exec(t: &Vec<Token>, p: usize) -> (r: usize)
    requires
        p <= t@.len(),
    ensures
        r == adv(tv(t), p as int),
        p <= r <= t@.len(),
        r == p ==> tk(tv(t), p as int).kind is Eof,
{
    reveal(tag);
    proof {
        lemma_tokens_view_len(t@);
    }
    if p >= t.len() || tag_at(t, p) == 32 {
        p
    } else {
        p + 1
    }
}

pub(crate) fn ident_name(t: &Vec<Token>, i: usize) -> (r: Option<String>)
    ensures
        match r {
            Some(n) => ident_at(tv(t), i as int) == Some(n@),
            None => ident_at(tv(t), i as int) is None,
        },
        r is Some ==> i < t@.len(),
        t@.len() <= usize::MAX,
{
    proof {
        lemma_tokens_view_len(t@);
    }
    if i < t.len() {
        proof {
            lemma_tokens_view_index(t@, i as int);
        }
        match &t[i].kind {
            TokenKind::Identifier(n) => Some(n.clone()),
            _ => None,
        }
    } else {
        None
    }
}

pub(crate) fn ident_is(t: &Vec<Token>, i: usize, word: &str) -> (r: bool)
    ensures
        r == is_ident(tv(t), i as int, word@),
        r ==> i < t@.len(),
        t@.len() <= usize::MAX,
{
    proof {
        lemma_tokens_view_len(t@);
    }
    if i < t.len() {
        proof {
            lemma_tokens_view_index(t@, i as int);
        }
        match &t[i].kind {
            TokenKind::Identifier(n) => str_eq(n.as_str(), word),
            _ => false,
        }
    } else {
        false
    }
}

pub(crate) fn expect_exec(t: &Vec<Token>, p: usize, k: &TokenKind, message: &str) -> (r: Result<usize, Diagnostic>)
    requires
        p <= t@.len(),
    ensures
        pos_res(r) == expect(tv(t), p as int, kind_view(*k), message@),
        r matches Ok(q) ==> p <= q <= t@.len() && (q == p ==> kind_view(*k) is Eof),
{
    reveal(tag);
    reveal(at);
    if at_exec(t, p, k) {
        Ok(adv_exec(t, p))
    } else {
        Err(Diagnostic::new(message, span_at(t, p)))
    }
}

pub(crate) fn take_ident_exec(t: &Vec<Token>, p: usize, message: &str) -> (r: Result<(String, Span), Diagnostic>)
    ensures
        match r {
            Ok((n, sp)) => take_ident(tv(t), p as int, message@) == Ok::<(Seq<char>, Span), DiagnosticV>((n@, sp)),
            Err(d) => take_ident(tv(t), p as int, message@) == Err::<(Seq<char>, Span), DiagnosticV>(d@),
        },
        r is Ok ==> p < t@.len(),
        t@.len() <= usize::MAX,
{
    proof {
        lemma_tokens_view_len(t@);
    }
    match ident_name(t, p) {
        Some(n) => Ok((n, span_at(t, p))),
        None => Err(Diagnostic::new(message, span_at(t, p))),
    }
}

pub(crate) fn assignment_operator_exec(t: &Vec<Token>, p: usize) -> (r: Option<AssignmentOperator>)
    ensures
        r == assignment_operator(tk(tv(t), p as int).kind),
{
    reveal(tag);
    reveal(at);
    let g = tag_at(t, p);
    if g == 7 {
        Some(AssignmentOperator::Assign)
    } else if g == 18 {
        Some(AssignmentOperator::Add)
    } else if g == 20 {
        Some(AssignmentOperator::Subtract)
    } else {
        None
    }
}

pub(crate) fn binary_operator_exec(t: &Vec<Token>, p: usize) -> (r: Option<(BinaryOperator, u8)>)
    ensures
        r == binary_operator(tk(tv(t), p as int).kind),
{
    reveal(tag);
    reveal(at);
    let g = tag_at(t, p);
    if g == 11 {
        Some((BinaryOperator::Or, 1))
    } else if g == 10 {
        Some((BinaryOperator::And, 2))
    } else if g == 8 {
        Some((BinaryOperator::Equal, 3))
    } else if g == 9 {
        Some((BinaryOperator::NotEqual, 3))
    } else if g == 12 {
        Some((BinaryOperator::Less, 4))
    } else if g == 13 {
        Some((BinaryOperator::LessEqual, 4))
    } else if g == 14 {
        Some((BinaryOperator::Greater, 4))
    } else if g == 15 {
        Some((BinaryOperator::GreaterEqual, 4))
    } else if g == 17 {
        Some((BinaryOperator::Add, 5))
    } else if g == 19 {
        Some((BinaryOperator::Subtract, 5))
    } else if g == 21 {
        Some((BinaryOperator::Multiply, 6))
    } else if g == 22 {
        Some((BinaryOperator::Divide, 6))
    } else if g == 23 {
        Some((BinaryOperator::Remainder, 6))
    } else {
        None
    }
}

pub(crate) fn visibility_for_exec(name: &String) -> (r: Visibility)
    ensures
        r == visibility_for(name@),
{
    let chars = crate::text::chars_of(name.as_str());
    if chars.len() > 0 && chars[0] == '_' {
        Visibility::Private
    } else {
        Visibility::Public
    }
}

pub(crate) fn is_computed_assignment_exec(t: &Vec<Token>, p: usize) -> (r: bool)
    ensures
        r == is_computed_assignment(tv(t), p as int),
{
    reveal(tag);
    reveal(at);
    proof {
        lemma_tokens_view_len(t@);
    }
    if !at_exec(t, p, &TokenKind::LeftBracket) {
        return false;
    }
    let mut i = p;
    let mut depth: usize = 0;
    while i < t.len()
        invariant
            tv(t).len() == t@.len(),
            p <= i <= t@.len(),
            depth <= i - p,
            at(tv(t), p as int, TokenKindV::LeftBracket),
            computed_scan(tv(t), p as int, 0) == computed_scan(tv(t), i as int, depth as nat),
        decreases t@.len() - i,
    {
        reveal(tag);
        let g = tag_at(t, i);
        let ghost depth_before = depth;
        if g == 28 {
            depth = depth + 1;
        } else if g == 29 {
            depth = if depth > 0 { depth - 1 } else { 0 };
            if depth == 0 {
                if i + 1 < t.len() {
                    let g2 = tag_at(t, i + 1);
                    proof {
                        let k = tv(t)[i + 1].kind;
                        let k0 = tv(t)[i as int].kind;
                        assert(tag(k) == 7 <==> k is Equal);
                        assert(tag(k0) == 29 <==> k0 is RightBracket);
                        assert(computed_scan(tv(t), i as int, depth_before as nat) == (g2 == 7));
                    }
                    return g2 == 7;
                }
                return false;
            }
        } else if g == 32 {
            return false;
        }
        i = i + 1;
    }
    false
}

pub(crate) fn next_if_starts_block_exec(t: &Vec<Token>, p: usize) -> (r: bool)
    requires
        p <= t@.len(),
    ensures
        r == next_if_starts_block(tv(t), p as int),
{
    reveal(tag);
    reveal(at);
    proof {
        lemma_tokens_view_len(t@);
    }
    if p >= t.len() {
        return false;
    }
    let mut i = p + 1;
    let mut parens: usize = 0;
    let mut brackets: usize = 0;
    while i < t.len()
        invariant
            tv(t).len() == t@.len(),
            p + 1 <= i,
            parens <= i,
            brackets <= i,
            block_scan(tv(t), p + 1, 0, 0) == block_scan(tv(t), i as int, parens as nat, brackets as nat),
        decreases t@.len() - i,
    {
        reveal(tag);
        let g = tag_at(t, i);
        if g == 24 {
            parens = parens + 1;
        } else if g == 25 {
            parens = if parens > 0 { parens - 1 } else { 0 };
        } else if g == 28 {
            brackets = brackets + 1;
        } else if g == 29 {
            brackets = if brackets > 0 { brackets - 1 } else { 0 };
        } else if g == 26 && parens == 0 && brackets == 0 {
            return true;
        } else if ident_is(t, i, "else") && parens == 0 && brackets == 0 {
            proof {
                lemma_tokens_view_index(t@, i as int);
            }
            return false;
        } else if g == 32 {
            return false;
        } else {
            proof {
                lemma_tokens_view_index(t@, i as int);
            }
        }
        i = i + 1;
    }
    false
}

pub(crate) fn is_parenthesized_lambda_exec(t: &Vec<Token>, p: usize) -> (r: bool)
    requires
        p <= t@.len(),
    ensures
        r == is_parenthesized_lambda(tv(t), p as int),
{
    reveal(tag);
    reveal(at);
    proof {
        lemma_tokens_view_len(t@);
    }
    if p >= t.len() || p + 1 >= t.len() || !at_exec(t, p, &TokenKind::LeftParen) || ident_name(t, p + 1).is_none() {
        return false;
    }
    let mut i = p + 2;
    while i < t.len() && tag_at(t, i) == 30
        invariant
            tv(t).len() == t@.len(),
            p + 2 <= i,
            paren_lambda_scan(tv(t), p + 2) == paren_lambda_scan(tv(t), i as int),
        decreases t@.len() - i,
    {
        reveal(tag);
        if ident_name(t, i + 1).is_none() {
            return false;
        }
        i = i + 2;
    }
    i < t.len() && tag_at(t, i) == 25 && i + 1 < t.len() && tag_at(t, i + 1) == 16
}

/// How tightly the operator of token `k` binds (0 for a token that is no
/// binary operator).
pub open spec fn binding_power(k: TokenKindV) -> int {
    match binary_operator(k) {
        Some((_, p)) => p as int,
        None => 0,
    }
}

/// The binary operators and how tightly they bind: `*`, `/` and `%` (the
/// multiply, divide and remainder operators) bind alike and tighter than
/// `+` and `-`, which bind alike and tighter than the comparisons `<`,
/// `<=`, `>`, `>=`, which bind tighter than `==` and `!=`, then `&&`, then
/// `||` loosest. So `2 + 7 % 4` groups as `2 + (7 % 4)`.
pub proof fn law_binary_operator_precedence()
    ensures
        binary_operator(TokenKindV::Star) matches Some((op, _)) && op == BinaryOperator::Multiply,
        binary_operator(TokenKindV::Slash) matches Some((op, _)) && op == BinaryOperator::Divide,
        binary_operator(TokenKindV::Percent) matches Some((op, _)) && op == BinaryOperator::Remainder,
        binary_operator(TokenKindV::Plus) matches Some((op, _)) && op == BinaryOperator::Add,
        binary_operator(TokenKindV::Minus) matches Some((op, _)) && op == BinaryOperator::Subtract,
        binary_operator(TokenKindV::Less) matches Some((op, _)) && op == BinaryOperator::Less,
        binary_operator(TokenKindV::LessEqual) matches Some((op, _)) && op == BinaryOperator::LessEqual,
        binary_operator(TokenKindV::Greater) matches Some((op, _)) && op == BinaryOperator::Greater,
        binary_operator(TokenKindV::GreaterEqual) matches Some((op, _)) && op == BinaryOperator::GreaterEqual,
        binary_operator(TokenKindV::EqualEqual) matches Some((op, _)) && op == BinaryOperator::Equal,
        binary_operator(TokenKindV::BangEqual) matches Some((op, _)) && op == BinaryOperator::NotEqual,
        binary_operator(TokenKindV::AmpAmp) matches Some((op, _)) && op == BinaryOperator::And,
        binary_operator(TokenKindV::PipePipe) matches Some((op, _)) && op == BinaryOperator::Or,
        binding_power(TokenKindV::Percent) == binding_power(TokenKindV::Star),
        binding_power(TokenKindV::Slash) == binding_power(TokenKindV::Star),
        binding_power(TokenKindV::Minus) == binding_power(TokenKindV::Plus),
        binding_power(TokenKindV::Plus) < binding_power(TokenKindV::Star),
        binding_power(TokenKindV::LessEqual) == binding_power(TokenKindV::Less),
        binding_power(TokenKindV::Greater) == binding_power(TokenKindV::Less),
        binding_power(TokenKindV::GreaterEqual) == binding_power(TokenKindV::Less),
        binding_power(TokenKindV::Less) < binding_power(TokenKindV::Plus),
        binding_power(TokenKindV::BangEqual) == binding_power(TokenKindV::EqualEqual),
        binding_power(TokenKindV::EqualEqual) < binding_power(TokenKindV::Less),
        binding_power(TokenKindV::AmpAmp) < binding_power(TokenKindV::EqualEqual),
        0 < binding_power(TokenKindV::PipePipe) < binding_power(TokenKindV::AmpAmp),
{
}

} // verus!
