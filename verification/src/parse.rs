//! The executable parser, proved to compute exactly the grammar of
//! `parser.rs`.

use vstd::prelude::*;
use crate::ast::{
    Expression, ExpressionKind, Statement, StatementKind, SwitchArm, SwitchPattern, ObjectField,
    InterpolatedStringPart, FunctionDefinition, TestBlock, TestInput, Program, expr_view,
    stmt_view, stmts_view, exprs_view, arm_view, arms_view, fields_view, iparts_view,
    strings_view, test_inputs_view, functions_view, tests_view, program_view, lemma_exprs_push,
    lemma_stmts_push, lemma_arms_push, lemma_fields_push, lemma_iparts_push, lemma_strings_push,
    lemma_test_inputs_push, lemma_functions_push, lemma_tests_push, lemma_arms_index,
    lemma_arms_len, ExprV, ExprKindV, ArmV, PatternV, Visibility,
};
use crate::diagnostic::{CompileError, Diagnostic, DiagnosticV, diag};
use crate::lexer::lex;
use crate::parser::{
    PostfixOp, postfix_op, member_op, apply_op, DotTarget, dot_target, mk_expr, span2, tk, PRes, tv, expr_res, stmt_res, stmts_res, exprs_res, arm_res, advanced, statement, assignment, computed_assignment, block, block_stmts, expect, lambda_params, expression, conditional, binary, binary_loop, unary, postfix, postfix_loop, interp_parts, primary, block_if_expression, switch_arm, switch_arms, switch_expression, first_early_catch_all, is_catch_all, all_digits, expr_list, array, object_fields, object, arguments, params, function_definition, test_inputs, test_block, program_items, parse_tokens, spec_parse, ident_is, ident_name, span_at, at_exec, adv_exec, expect_exec, take_ident_exec, assignment_operator_exec, binary_operator_exec, visibility_for_exec, is_computed_assignment_exec, next_if_starts_block_exec, is_parenthesized_lambda_exec,
};
use crate::source::Span;
use crate::text::{str_eq, string_push, chars_of, char_is_digit};
use crate::token::{
    InterpolatedTokenPart, Token, TokenKind, TokenKindV, TokenV, kind_view,
    lemma_parts_view_index, lemma_parts_view_len, lemma_tokens_view_index, lemma_tokens_view_len,
    parts_view, tokens_view,
};

verus! {

pub open spec fn fields_res(r: Result<(Vec<ObjectField>, usize), Diagnostic>) -> PRes<Seq<crate::ast::FieldV>> {
    match r {
        Ok((e, q)) => Ok((fields_view(e@), q as int)),
        Err(d) => Err(d@),
    }
}

pub open spec fn names_res(r: Result<(Vec<String>, usize), Diagnostic>) -> PRes<Seq<Seq<char>>> {
    match r {
        Ok((e, q)) => Ok((strings_view(e@), q as int)),
        Err(d) => Err(d@),
    }
}

pub open spec fn inputs_res(r: Result<(Vec<TestInput>, usize), Diagnostic>) -> PRes<Seq<crate::ast::TestInputV>> {
    match r {
        Ok((e, q)) => Ok((test_inputs_view(e@), q as int)),
        Err(d) => Err(d@),
    }
}

pub open spec fn function_res(r: Result<(FunctionDefinition, usize), Diagnostic>) -> PRes<crate::ast::FunctionV> {
    match r {
        Ok((e, q)) => Ok((crate::ast::function_view(e), q as int)),
        Err(d) => Err(d@),
    }
}

pub open spec fn test_res(r: Result<(TestBlock, usize), Diagnostic>) -> PRes<crate::ast::TestBlockV> {
    match r {
        Ok((e, q)) => Ok((crate::ast::test_view(e), q as int)),
        Err(d) => Err(d@),
    }
}

fn all_digits_exec(v: &String) -> (r: bool)
    ensures
        r == all_digits(v@),
{
    reveal(all_digits);
    let chars = chars_of(v.as_str());
    let mut i: usize = 0;
    while i < chars.len()
        invariant
            chars@ == v@,
            i <= chars@.len(),
            forall|j: int| 0 <= j < i ==> crate::text::is_digit(#[trigger] chars@[j]),
        decreases chars@.len() - i,
    {
        reveal(all_digits);
        if !char_is_digit(chars[i]) {
            return false;
        }
        i = i + 1;
    }
    true
}

fn is_catch_all_exec(a: &SwitchArm) -> (r: bool)
    ensures
        r == is_catch_all(arm_view(*a)),
{
    match &a.pattern {
        SwitchPattern::Wildcard => true,
        SwitchPattern::Binding(_) => true,
        SwitchPattern::Value(_) => false,
    }
}

/// The span of the first arm before the last one that is a catch-all.
fn early_catch_all_exec(arms: &Vec<SwitchArm>) -> (r: Option<Span>)
    ensures
        match first_early_catch_all(arms_view(arms@), 0) {
            Some(a) => r == Some(a.span),
            None => r is None,
        },
{
    proof {
        lemma_arms_len(arms@);
    }
    let mut j: usize = 0;
    while j < arms.len() && arms.len() - j > 1
        invariant
            arms_view(arms@).len() == arms@.len(),
            j <= arms@.len(),
            first_early_catch_all(arms_view(arms@), 0) == first_early_catch_all(arms_view(arms@), j as int),
        decreases arms@.len() - j,
    {
        proof {
            lemma_arms_index(arms@, j as int);
        }
        if is_catch_all_exec(&arms[j]) {
            return Some(arms[j].span);
        }
        j = j + 1;
    }
    None
}

/// Whether the arms are nonempty and the last one is a catch-all.
fn last_is_catch_all_exec(arms: &Vec<SwitchArm>) -> (r: bool)
    ensures
        r == (arms_view(arms@).len() > 0 && is_catch_all(arms_view(arms@).last())),
{
    proof {
        lemma_arms_len(arms@);
    }
    if arms.len() == 0 {
        return false;
    }
    proof {
        lemma_arms_index(arms@, arms@.len() - 1);
    }
    is_catch_all_exec(&arms[arms.len() - 1])
}

fn statement_exec(t: &Vec<Token>, p: usize) -> (r: Result<(Statement, usize), Diagnostic>)
    requires
        p <= t@.len(),
    ensures
        stmt_res(r) == statement(tv(t), p as int),
        advanced(r, p as int, t@.len() as int),
    decreases tv(t), tv(t).len() - p, 20int,
{
    proof {
        lemma_tokens_view_len(t@);
    }
    if ident_is(t, p, "fun") {
        return Err(Diagnostic::new("function declarations are only allowed at top level", span_at(t, p)));
    }
    if ident_is(t, p, "return") {
        let start = span_at(t, p).start;
        return match expression_exec(t, p + 1) {
            Ok((v, q)) => {
                let end = v.span.end;
                Ok((Statement { kind: StatementKind::Return(v), span: Span { start, end } }, q))
            },
            Err(d) => Err(d),
        };
    }
    if ident_is(t, p, "while") {
        let start = span_at(t, p).start;
        return match expression_exec(t, p + 1) {
            Err(d) => Err(d),
            Ok((c, q1)) => match block_exec(t, q1) {
                Err(d) => Err(d),
                Ok((body, q2)) => {
                    let end = span_at(t, q2 - 1).end;
                    Ok((
                        Statement { kind: StatementKind::While { condition: c, body }, span: Span { start, end } },
                        q2,
                    ))
                },
            },
        };
    }
    if ident_is(t, p, "loop") {
        let start = span_at(t, p).start;
        return match block_exec(t, p + 1) {
            Err(d) => Err(d),
            Ok((body, q)) => {
                let end = span_at(t, q - 1).end;
                Ok((Statement { kind: StatementKind::Loop { body }, span: Span { start, end } }, q))
            },
        };
    }
    if ident_is(t, p, "break") {
        return Ok((Statement { kind: StatementKind::Break, span: span_at(t, p) }, p + 1));
    }
    if ident_name(t, p).is_some() && p + 1 < t.len() && assignment_operator_exec(t, p + 1).is_some() {
        return assignment_exec(t, p);
    }
    if is_computed_assignment_exec(t, p) {
        return computed_assignment_exec(t, p);
    }
    match expression_exec(t, p) {
        Ok((e, q)) => {
            let sp = e.span;
            Ok((Statement { kind: StatementKind::Expression(e), span: sp }, q))
        },
        Err(d) => Err(d),
    }
}

fn assignment_exec(t: &Vec<Token>, p: usize) -> (r: Result<(Statement, usize), Diagnostic>)
    requires
        p < t@.len(),
    ensures
        stmt_res(r) == assignment(tv(t), p as int),
        advanced(r, p as int, t@.len() as int),
    decreases tv(t), tv(t).len() - p, 15int,
{
    proof {
        lemma_tokens_view_len(t@);
    }
    match take_ident_exec(t, p, "expected assignment name") {
        Err(d) => Err(d),
        Ok((name, nspan)) => {
            let q = p + 1;
            match assignment_operator_exec(t, q) {
                None => Err(Diagnostic::new("expected assignment operator", span_at(t, q))),
                Some(operator) => {
                    let q1 = adv_exec(t, q);
                    match expression_exec(t, q1) {
                        Err(d) => Err(d),
                        Ok((value, q2)) => {
                            let visibility = visibility_for_exec(&name);
                            let end = value.span.end;
                            Ok((
                                Statement {
                                    kind: StatementKind::Assignment { name, operator, visibility, value },
                                    span: Span { start: nspan.start, end },
                                },
                                q2,
                            ))
                        },
                    }
                },
            }
        },
    }
}

fn computed_assignment_exec(t: &Vec<Token>, p: usize) -> (r: Result<(Statement, usize), Diagnostic>)
    requires
        p < t@.len(),
    ensures
        stmt_res(r) == computed_assignment(tv(t), p as int),
        advanced(r, p as int, t@.len() as int),
    decreases tv(t), tv(t).len() - p, 15int,
{
    proof {
        lemma_tokens_view_len(t@);
    }
    match expect_exec(t, p, &TokenKind::LeftBracket, "expected `[` before computed assignment") {
        Err(d) => Err(d),
        Ok(q) => {
            let start = span_at(t, p).start;
            match expression_exec(t, q) {
                Err(d) => Err(d),
                Ok((name, q1)) => match expect_exec(t, q1, &TokenKind::RightBracket, "expected `]` after computed assignment name") {
                    Err(d) => Err(d),
                    Ok(q2) => match expect_exec(t, q2, &TokenKind::Equal, "expected `=` after computed assignment name") {
                        Err(d) => Err(d),
                        Ok(q3) => match expression_exec(t, q3) {
                            Err(d) => Err(d),
                            Ok((value, q4)) => {
                                let end = value.span.end;
                                Ok((
                                    Statement {
                                        kind: StatementKind::ComputedAssignment { name, value },
                                        span: Span { start, end },
                                    },
                                    q4,
                                ))
                            },
                        },
                    },
                },
            }
        },
    }
}

fn block_exec(t: &Vec<Token>, p: usize) -> (r: Result<(Vec<Statement>, usize), Diagnostic>)
    requires
        p <= t@.len(),
    ensures
        stmts_res(r) == block(tv(t), p as int),
        advanced(r, p as int, t@.len() as int),
    decreases tv(t), tv(t).len() - p, 6int,
{
    proof {
        lemma_tokens_view_len(t@);
    }
    let q = match expect_exec(t, p, &TokenKind::LeftBrace, "expected `{` before block") {
        Err(d) => {
            return Err(d);
        },
        Ok(q) => q,
    };
    let mut stmts: Vec<Statement> = Vec::new();
    let mut i = q;
    while !(at_exec(t, i, &TokenKind::RightBrace) || at_exec(t, i, &TokenKind::Eof))
        invariant
            tv(t).len() == t@.len(),
            p < q <= i <= t@.len(),
            expect(tv(t), p as int, TokenKindV::LeftBrace, "expected `{` before block"@) == Ok::<int, DiagnosticV>(q as int),
            block_stmts(tv(t), q as int, seq![]) == block_stmts(tv(t), i as int, stmts_view(stmts@)),
        decreases t@.len() - i,
    {
        match statement_exec(t, i) {
            Err(d) => {
                return Err(d);
            },
            Ok((s, q2)) => {
                proof {
                    lemma_stmts_push(stmts@, s);
                }
                stmts.push(s);
                i = q2;
            },
        }
    }
    match expect_exec(t, i, &TokenKind::RightBrace, "expected `}` after block") {
        Err(d) => Err(d),
        Ok(q3) => Ok((stmts, q3)),
    }
}

fn lambda_params_exec(t: &Vec<Token>, p: usize) -> (r: Result<(Vec<String>, usize), Diagnostic>)
    requires
        p <= t@.len(),
    ensures
        names_res(r) == lambda_params(tv(t), p as int, seq![]),
        advanced(r, p as int, t@.len() as int),
{
    proof {
        lemma_tokens_view_len(t@);
    }
    let mut names: Vec<String> = Vec::new();
    let mut i = p;
    loop
        invariant
            tv(t).len() == t@.len(),
            p <= i <= t@.len(),
            lambda_params(tv(t), p as int, seq![]) == lambda_params(tv(t), i as int, strings_view(names@)),
        decreases t@.len() - i,
    {
        if i >= t.len() {
            return Err(Diagnostic::new("expected lambda parameter", span_at(t, i)));
        }
        match take_ident_exec(t, i, "expected lambda parameter") {
            Err(d) => {
                return Err(d);
            },
            Ok((name, _)) => {
                let q = i + 1;
                proof {
                    lemma_strings_push(names@, name);
                }
                names.push(name);
                if at_exec(t, q, &TokenKind::Comma) && q + 1 <= t.len() {
                    i = q + 1;
                } else {
                    return Ok((names, q));
                }
            },
        }
    }
}

fn expression_exec(t: &Vec<Token>, p: usize) -> (r: Result<(Expression, usize), Diagnostic>)
    requires
        p <= t@.len(),
    ensures
        expr_res(r) == expression(tv(t), p as int),
        advanced(r, p as int, t@.len() as int),
    decreases tv(t), tv(t).len() - p, 14int,
{
    proof {
        lemma_tokens_view_len(t@);
    }
    if ident_is(t, p, "if") {
        let start = span_at(t, p).start;
        return block_if_exec(t, p + 1, start);
    }
    if ident_name(t, p).is_some() && p + 1 < t.len() && at_exec(t, p + 1, &TokenKind::FatArrow) {
        let name = match ident_name(t, p) {
            Some(n) => n,
            None => {
                return Err(Diagnostic::new("expected expression", span_at(t, p)));
            },
        };
        let start = span_at(t, p).start;
        return match expression_exec(t, p + 2) {
            Err(d) => Err(d),
            Ok((body, q)) => {
                let end = body.span.end;
                let mut parameters: Vec<String> = Vec::new();
                proof {
                    lemma_strings_push(parameters@, name);
                    assert(strings_view(parameters@).push(name@) =~= seq![name@]);
                }
                parameters.push(name);
                Ok((
                    Expression {
                        kind: ExpressionKind::Lambda { parameters, body: Box::new(body) },
                        span: Span { start, end },
                    },
                    q,
                ))
            },
        };
    }
    if is_parenthesized_lambda_exec(t, p) {
        let start = span_at(t, p).start;
        return match lambda_params_exec(t, p + 1) {
            Err(d) => Err(d),
            Ok((parameters, q)) => match expect_exec(t, q, &TokenKind::RightParen, "expected `)` after lambda parameters") {
                Err(d) => Err(d),
                Ok(q2) => match expect_exec(t, q2, &TokenKind::FatArrow, "expected `=>` after lambda parameters") {
                    Err(d) => Err(d),
                    Ok(q3) => match expression_exec(t, q3) {
                        Err(d) => Err(d),
                        Ok((body, q4)) => {
                            let end = body.span.end;
                            Ok((
                                Expression {
                                    kind: ExpressionKind::Lambda { parameters, body: Box::new(body) },
                                    span: Span { start, end },
                                },
                                q4,
                            ))
                        },
                    },
                },
            },
        };
    }
    conditional_exec(t, p)
}

fn conditional_exec(t: &Vec<Token>, p: usize) -> (r: Result<(Expression, usize), Diagnostic>)
    requires
        p <= t@.len(),
    ensures
        expr_res(r) == conditional(tv(t), p as int),
        advanced(r, p as int, t@.len() as int),
    decreases tv(t), tv(t).len() - p, 13int,
{
    proof {
        lemma_tokens_view_len(t@);
    }
    let (then_branch, p1) = match binary_exec(t, p, 0) {
        Err(d) => {
            return Err(d);
        },
        Ok(x) => x,
    };
    if !ident_is(t, p1, "if") || next_if_starts_block_exec(t, p1) {
        return Ok((then_branch, p1));
    }
    let (condition, p2) = match binary_exec(t, p1 + 1, 0) {
        Err(d) => {
            return Err(d);
        },
        Ok(x) => x,
    };
    if !ident_is(t, p2, "else") {
        return Err(Diagnostic::new("expected `else` in conditional expression", span_at(t, p2)));
    }
    match expression_exec(t, p2 + 1) {
        Err(d) => Err(d),
        Ok((else_branch, p3)) => {
            let start = then_branch.span.start;
            let end = else_branch.span.end;
            Ok((
                Expression {
                    kind: ExpressionKind::IfElse {
                        condition: Box::new(condition),
                        then_branch: Box::new(then_branch),
                        else_branch: Box::new(else_branch),
                    },
                    span: Span { start, end },
                },
                p3,
            ))
        },
    }
}

fn binary_exec(t: &Vec<Token>, p: usize, min: u8) -> (r: Result<(Expression, usize), Diagnostic>)
    requires
        p <= t@.len(),
    ensures
        expr_res(r) == binary(tv(t), p as int, min),
        advanced(r, p as int, t@.len() as int),
    decreases tv(t), tv(t).len() - p, 12int,
{
    proof {
        lemma_tokens_view_len(t@);
    }
    let (mut left, p1) = match unary_exec(t, p) {
        Err(d) => {
            return Err(d);
        },
        Ok(x) => x,
    };
    let ghost left0 = expr_view(left);
    let mut i = p1;
    loop
        invariant
            tv(t).len() == t@.len(),
            p < p1 <= i <= t@.len(),
            binary(tv(t), p as int, min) == binary_loop(tv(t), p1 as int, left0, min),
            binary_loop(tv(t), p1 as int, left0, min) == binary_loop(tv(t), i as int, expr_view(left), min),
        decreases t@.len() - i,
    {
        match binary_operator_exec(t, i) {
            None => {
                return Ok((left, i));
            },
            Some((operator, precedence)) => {
                if precedence < min || i >= t.len() {
                    return Ok((left, i));
                }
                match binary_exec(t, i + 1, precedence + 1) {
                    Err(d) => {
                        return Err(d);
                    },
                    Ok((right, p2)) => {
                        let start = left.span.start;
                        let end = right.span.end;
                        left = Expression {
                            kind: ExpressionKind::Binary { left: Box::new(left), operator, right: Box::new(right) },
                            span: Span { start, end },
                        };
                        i = p2;
                    },
                }
            },
        }
    }
}

fn unary_exec(t: &Vec<Token>, p: usize) -> (r: Result<(Expression, usize), Diagnostic>)
    requires
        p <= t@.len(),
    ensures
        expr_res(r) == unary(tv(t), p as int),
        advanced(r, p as int, t@.len() as int),
    decreases tv(t), tv(t).len() - p, 10int,
{
    proof {
        lemma_tokens_view_len(t@);
    }
    let minus = at_exec(t, p, &TokenKind::Minus);
    if (minus || at_exec(t, p, &TokenKind::Bang)) && p < t.len() {
        let operator = if minus {
            crate::ast::UnaryOperator::Negate
        } else {
            crate::ast::UnaryOperator::Not
        };
        let start = span_at(t, p).start;
        return match unary_exec(t, p + 1) {
            Err(d) => Err(d),
            Ok((operand, q)) => {
                let end = operand.span.end;
                Ok((
                    Expression {
                        kind: ExpressionKind::Unary { operator, operand: Box::new(operand) },
                        span: Span { start, end },
                    },
                    q,
                ))
            },
        };
    }
    postfix_exec(t, p)
}


enum DotOut {
    Member(String),
    Index(String, Span),
    Fail(Diagnostic),
}

spec fn dot_view(r: DotOut) -> DotTarget {
    match r {
        DotOut::Member(n) => DotTarget::Member(n@),
        DotOut::Index(v, sp) => DotTarget::Index(v@, sp),
        DotOut::Fail(d) => DotTarget::Fail(d@),
    }
}

fn dot_target_exec(t: &Vec<Token>, q: usize) -> (r: DotOut)
    ensures
        dot_view(r) == dot_target(tv(t), q as int),
        r matches DotOut::Member(n) ==> q < t@.len() && tk(tv(t), q as int).kind == TokenKindV::Identifier(n@),
        r is Index ==> q < t@.len(),
{
    proof {
        lemma_tokens_view_len(t@);
    }
    if q >= t.len() {
        return DotOut::Fail(Diagnostic::new("expected property name or non-negative integer after `.`", span_at(t, q)));
    }
    proof {
        lemma_tokens_view_index(t@, q as int);
    }
    let sp = t[q].span;
    match &t[q].kind {
        TokenKind::Identifier(n) => DotOut::Member(n.clone()),
        TokenKind::Number(v) => {
            if all_digits_exec(v) {
                DotOut::Index(v.clone(), sp)
            } else {
                DotOut::Fail(Diagnostic::new("expected non-negative integer index after `.`", sp))
            }
        },
        _ => DotOut::Fail(Diagnostic::new("expected property name or non-negative integer after `.`", sp)),
    }
}

/// A postfix operator read by `postfix_op_exec`.
enum OpOut {
    Stop,
    Fail(Diagnostic),
    Block(String, Vec<Statement>, usize, usize),
    Call(String, bool, Vec<Expression>, usize, usize),
    Property(String, Span, usize),
    Number(String, Span, usize),
    Required(usize, usize),
    Index(Expression, usize, usize),
}

spec fn op_view(r: OpOut) -> PostfixOp {
    match r {
        OpOut::Stop => PostfixOp::Stop,
        OpOut::Fail(d) => PostfixOp::Fail(d@),
        OpOut::Block(m, body, end, q) => PostfixOp::Block(m@, stmts_view(body@), end, q as int),
        OpOut::Call(n, multiple, args, end, q) => PostfixOp::Call(n@, multiple, exprs_view(args@), end, q as int),
        OpOut::Property(n, sp, q) => PostfixOp::Property(n@, sp, q as int),
        OpOut::Number(v, sp, q) => PostfixOp::Number(v@, sp, q as int),
        OpOut::Required(end, q) => PostfixOp::Required(end, q as int),
        OpOut::Index(ix, end, q) => PostfixOp::Index(expr_view(ix), end, q as int),
    }
}

/// The position after an operator.
spec fn op_end(r: OpOut) -> int {
    match r {
        OpOut::Block(_, _, _, q) => q as int,
        OpOut::Call(_, _, _, _, q) => q as int,
        OpOut::Property(_, _, q) => q as int,
        OpOut::Number(_, _, q) => q as int,
        OpOut::Required(_, q) => q as int,
        OpOut::Index(_, _, q) => q as int,
        _ => 0,
    }
}

#[verifier::rlimit(30)]
fn member_op_exec(t: &Vec<Token>, q: usize, name: String) -> (r: OpOut)
    requires
        q < t@.len(),
        !(tk(tv(t), q as int).kind is Eof),
    ensures
        op_view(r) == member_op(tv(t), q as int, name@),
        !(r is Stop) && !(r is Fail) ==> q < op_end(r) <= t@.len(),
    decreases tv(t), tv(t).len() - q, 5int,
{
    proof {
        lemma_tokens_view_len(t@);
    }
    let nspan = span_at(t, q);
    let q1 = adv_exec(t, q);
    if at_exec(t, q1, &TokenKind::LeftBrace) {
        match block_exec(t, q1) {
            Err(d) => OpOut::Fail(d),
            Ok((body, q2)) => {
                let end = span_at(t, q2 - 1).end;
                OpOut::Block(name, body, end, q2)
            },
        }
    } else if at_exec(t, q1, &TokenKind::LeftParen) || at_exec(t, q1, &TokenKind::At) {
        let multiple = at_exec(t, q1, &TokenKind::At);
        let q2 = if multiple {
            adv_exec(t, q1)
        } else {
            q1
        };
        match arguments_exec(t, q2) {
            Err(d) => OpOut::Fail(d),
            Ok((arguments, q3)) => {
                let end = span_at(t, q3 - 1).end;
                OpOut::Call(name, multiple, arguments, end, q3)
            },
        }
    } else {
        OpOut::Property(name, nspan, q1)
    }
}

fn postfix_op_exec(t: &Vec<Token>, i: usize) -> (r: OpOut)
    requires
        i <= t@.len(),
    ensures
        op_view(r) == postfix_op(tv(t), i as int),
        !(r is Stop) && !(r is Fail) ==> i < op_end(r) <= t@.len(),
    decreases tv(t), tv(t).len() - i, 7int,
{
    proof {
        lemma_tokens_view_len(t@);
    }
    if at_exec(t, i, &TokenKind::Dot) && i < t.len() {
        match dot_target_exec(t, i + 1) {
            DotOut::Member(n) => member_op_exec(t, i + 1, n),
            DotOut::Index(v, sp) => OpOut::Number(v, sp, i + 2),
            DotOut::Fail(d) => OpOut::Fail(d),
        }
    } else if at_exec(t, i, &TokenKind::Bang) && i < t.len() {
        OpOut::Required(span_at(t, i).end, i + 1)
    } else if at_exec(t, i, &TokenKind::LeftBracket) && i < t.len() {
        if is_computed_assignment_exec(t, i) {
            return OpOut::Stop;
        }
        match expression_exec(t, i + 1) {
            Err(d) => OpOut::Fail(d),
            Ok((index, q1)) => match expect_exec(t, q1, &TokenKind::RightBracket, "expected `]` after subscript index") {
                Err(d) => OpOut::Fail(d),
                Ok(q2) => {
                    let end = span_at(t, q2 - 1).end;
                    OpOut::Index(index, end, q2)
                },
            },
        }
    } else {
        OpOut::Stop
    }
}

/// Applies a postfix operator to `e`.
fn apply_op_exec(e: Expression, op: OpOut) -> (r: (Expression, usize))
    requires
        !(op is Stop) && !(op is Fail),
    ensures
        (expr_view(r.0), r.1 as int) == apply_op(expr_view(e), op_view(op)),
        r.1 as int == op_end(op),
{
    let ghost ev = expr_view(e);
    let ghost ov = op_view(op);
    let start = e.span.start;
    match op {
        OpOut::Block(method, body, end, q) => {
            let res = Expression {
                kind: ExpressionKind::FunctionalBlock { receiver: Box::new(e), method, body },
                span: Span { start, end },
            };
            assert(expr_view(res) == apply_op(ev, ov).0);
            (res, q)
        },
        OpOut::Call(name, multiple, arguments, end, q) => {
            let res = Expression {
                kind: ExpressionKind::MethodCall { receiver: Box::new(e), name, multiple, arguments },
                span: Span { start, end },
            };
            assert(expr_view(res) == apply_op(ev, ov).0);
            (res, q)
        },
        OpOut::Property(name, nspan, q) => {
            let ghost nv = name@;
            let index = Expression { kind: ExpressionKind::String(name), span: nspan };
            assert(expr_view(index) == mk_expr(ExprKindV::Str(nv), nspan));
            let res = Expression {
                kind: ExpressionKind::Subscript { receiver: Box::new(e), index: Box::new(index) },
                span: Span { start, end: nspan.end },
            };
            assert(expr_view(res) == apply_op(ev, ov).0);
            (res, q)
        },
        OpOut::Number(v, sp, q) => {
            let ghost vv = v@;
            let index = Expression { kind: ExpressionKind::Number(v), span: sp };
            assert(expr_view(index) == mk_expr(ExprKindV::Number(vv), sp));
            let res = Expression {
                kind: ExpressionKind::Subscript { receiver: Box::new(e), index: Box::new(index) },
                span: Span { start, end: sp.end },
            };
            assert(expr_view(res) == apply_op(ev, ov).0);
            (res, q)
        },
        OpOut::Required(end, q) => {
            let res = Expression { kind: ExpressionKind::Required(Box::new(e)), span: Span { start, end } };
            assert(expr_view(res) == apply_op(ev, ov).0);
            (res, q)
        },
        OpOut::Index(index, end, q) => {
            let res = Expression {
                kind: ExpressionKind::Subscript { receiver: Box::new(e), index: Box::new(index) },
                span: Span { start, end },
            };
            assert(expr_view(res) == apply_op(ev, ov).0);
            (res, q)
        },
        _ => (e, 0),
    }
}

fn postfix_exec(t: &Vec<Token>, p: usize) -> (r: Result<(Expression, usize), Diagnostic>)
    requires
        p <= t@.len(),
    ensures
        expr_res(r) == postfix(tv(t), p as int),
        advanced(r, p as int, t@.len() as int),
    decreases tv(t), tv(t).len() - p, 9int,
{
    proof {
        lemma_tokens_view_len(t@);
    }
    let (mut e, p1) = match primary_exec(t, p) {
        Err(d) => {
            return Err(d);
        },
        Ok(x) => x,
    };
    let ghost e0 = expr_view(e);
    let mut i = p1;
    loop
        invariant
            tv(t).len() == t@.len(),
            p < p1 <= i <= t@.len(),
            postfix(tv(t), p as int) == postfix_loop(tv(t), p1 as int, e0),
            postfix_loop(tv(t), p1 as int, e0) == postfix_loop(tv(t), i as int, expr_view(e)),
        decreases t@.len() - i,
    {
        let op = postfix_op_exec(t, i);
        match op {
            OpOut::Stop => {
                return Ok((e, i));
            },
            OpOut::Fail(d) => {
                return Err(d);
            },
            _ => {
                let (e2, q) = apply_op_exec(e, op);
                e = e2;
                i = q;
            },
        }
    }
}

fn interp_parts_exec(parts: &Vec<InterpolatedTokenPart>) -> (r: Result<Vec<InterpolatedStringPart>, Diagnostic>)
    ensures
        match r {
            Ok(v) => interp_parts(parts_view(parts@), seq![]) == Ok::<Seq<crate::ast::IPartV>, DiagnosticV>(iparts_view(v@)),
            Err(d) => interp_parts(parts_view(parts@), seq![]) == Err::<Seq<crate::ast::IPartV>, DiagnosticV>(d@),
        },
    decreases parts_view(parts@), 0int, 0int,
{
    let ghost pv = parts_view(parts@);
    proof {
        lemma_parts_view_len(parts@);
        assert(pv.skip(0) =~= pv);
    }
    let mut out: Vec<InterpolatedStringPart> = Vec::new();
    let mut i: usize = 0;
    while i < parts.len()
        invariant
            pv == parts_view(parts@),
            pv.len() == parts@.len(),
            i <= parts@.len(),
            interp_parts(pv, seq![]) == interp_parts(pv.skip(i as int), iparts_view(out@)),
        decreases parts@.len() - i,
    {
        proof {
            lemma_parts_view_index(parts@, i as int);
            assert(pv.skip(i as int).drop_first() =~= pv.skip(i + 1));
            assert(pv.skip(i as int)[0] == pv[i as int]);
        }
        match &parts[i] {
            InterpolatedTokenPart::Literal(v) => {
                let part = InterpolatedStringPart::Literal(v.clone());
                proof {
                    lemma_iparts_push(out@, part);
                }
                out.push(part);
            },
            InterpolatedTokenPart::Expression(ts) => {
                proof {
                    assert(pv[i as int] == crate::token::PartV::Expression(tokens_view(ts@)));
                    assert(decreases_to!(pv => pv[i as int]));
                    assert(decreases_to!(pv[i as int] => tokens_view(ts@)));
                }
                match expression_exec(ts, 0) {
                    Err(d) => {
                        return Err(d);
                    },
                    Ok((e, q)) => {
                        if !at_exec(ts, q, &TokenKind::Eof) {
                            return Err(Diagnostic::new("expected end of interpolation expression", span_at(ts, q)));
                        }
                        let part = InterpolatedStringPart::Expression(e);
                        proof {
                            lemma_iparts_push(out@, part);
                        }
                        out.push(part);
                    },
                }
            },
        }
        i = i + 1;
    }
    proof {
        assert(pv.skip(i as int).len() == 0);
    }
    Ok(out)
}

#[verifier::rlimit(30)]
fn primary_exec(t: &Vec<Token>, p: usize) -> (r: Result<(Expression, usize), Diagnostic>)
    requires
        p <= t@.len(),
    ensures
        expr_res(r) == primary(tv(t), p as int),
        advanced(r, p as int, t@.len() as int),
    decreases tv(t), tv(t).len() - p, 7int,
{
    proof {
        lemma_tokens_view_len(t@);
    }
    if p >= t.len() {
        return Err(Diagnostic::new("expected expression", span_at(t, p)));
    }
    proof {
        lemma_tokens_view_index(t@, p as int);
    }
    let sp = t[p].span;
    let p1 = adv_exec(t, p);
    match &t[p].kind {
        TokenKind::String(v) => Ok((Expression { kind: ExpressionKind::String(v.clone()), span: sp }, p1)),
        TokenKind::InterpolatedString(parts) => {
            proof {
                assert(tv(t)[p as int].kind == TokenKindV::InterpolatedString(parts_view(parts@)));
                assert(decreases_to!(tv(t) => tv(t)[p as int]));
                assert(decreases_to!(tv(t)[p as int] => tv(t)[p as int].kind));
                assert(decreases_to!(tv(t)[p as int].kind => parts_view(parts@)));
            }
            match interp_parts_exec(parts) {
                Err(d) => Err(d),
                Ok(ps) => Ok((Expression { kind: ExpressionKind::InterpolatedString(ps), span: sp }, p1)),
            }
        },
        TokenKind::Number(v) => Ok((Expression { kind: ExpressionKind::Number(v.clone()), span: sp }, p1)),
        TokenKind::Identifier(name) => {
            if str_eq(name.as_str(), "null") {
                Ok((Expression { kind: ExpressionKind::Null, span: sp }, p1))
            } else if str_eq(name.as_str(), "true") || str_eq(name.as_str(), "false") {
                let b = str_eq(name.as_str(), "true");
                Ok((Expression { kind: ExpressionKind::Boolean(b), span: sp }, p1))
            } else if str_eq(name.as_str(), "switch") {
                switch_expression_exec(t, p1, sp.start)
            } else if at_exec(t, p1, &TokenKind::LeftParen) || at_exec(t, p1, &TokenKind::At) {
                let multiple = at_exec(t, p1, &TokenKind::At);
                let q = if multiple {
                    adv_exec(t, p1)
                } else {
                    p1
                };
                match arguments_exec(t, q) {
                    Err(d) => Err(d),
                    Ok((arguments, q2)) => {
                        let mut nm = name.clone();
                        if multiple {
                            string_push(&mut nm, '@');
                        }
                        let end = span_at(t, q2 - 1).end;
                        Ok((
                            Expression {
                                kind: ExpressionKind::FunctionCall { name: nm, arguments },
                                span: Span { start: sp.start, end },
                            },
                            q2,
                        ))
                    },
                }
            } else {
                Ok((Expression { kind: ExpressionKind::Variable(name.clone()), span: sp }, p1))
            }
        },
        TokenKind::LeftParen => match expression_exec(t, p1) {
            Err(d) => Err(d),
            Ok((e, q)) => match expect_exec(t, q, &TokenKind::RightParen, "expected `)` after expression") {
                Err(d) => Err(d),
                Ok(q2) => Ok((e, q2)),
            },
        },
        TokenKind::LeftBracket => array_exec(t, p1, sp.start),
        TokenKind::LeftBrace => object_exec(t, p1, sp.start),
        _ => Err(Diagnostic::new("expected expression", sp)),
    }
}

fn block_if_exec(t: &Vec<Token>, p: usize, start: usize) -> (r: Result<(Expression, usize), Diagnostic>)
    requires
        p <= t@.len(),
    ensures
        expr_res(r) == block_if_expression(tv(t), p as int, start),
        advanced(r, p as int, t@.len() as int),
    decreases tv(t), tv(t).len() - p, 22int,
{
    proof {
        lemma_tokens_view_len(t@);
    }
    let (condition, q) = match expression_exec(t, p) {
        Err(d) => {
            return Err(d);
        },
        Ok(x) => x,
    };
    let (then_branch, q2) = match block_exec(t, q) {
        Err(d) => {
            return Err(d);
        },
        Ok(x) => x,
    };
    if ident_is(t, q2, "else") {
        match block_exec(t, q2 + 1) {
            Err(d) => Err(d),
            Ok((else_branch, q3)) => {
                let end = span_at(t, q3 - 1).end;
                Ok((
                    Expression {
                        kind: ExpressionKind::BlockIf {
                            condition: Box::new(condition),
                            then_branch,
                            else_branch: Some(else_branch),
                        },
                        span: Span { start, end },
                    },
                    q3,
                ))
            },
        }
    } else {
        let end = span_at(t, q2 - 1).end;
        Ok((
            Expression {
                kind: ExpressionKind::BlockIf { condition: Box::new(condition), then_branch, else_branch: None },
                span: Span { start, end },
            },
            q2,
        ))
    }
}

fn switch_arm_exec(t: &Vec<Token>, p: usize) -> (r: Result<(SwitchArm, usize), Diagnostic>)
    requires
        p <= t@.len(),
    ensures
        arm_res(r) == switch_arm(tv(t), p as int),
        advanced(r, p as int, t@.len() as int),
    decreases tv(t), tv(t).len() - p, 20int,
{
    proof {
        lemma_tokens_view_len(t@);
    }
    let start = span_at(t, p).start;
    let name_opt = ident_name(t, p);
    let (pattern, q) = if name_opt.is_some() && p + 1 < t.len() && at_exec(t, p + 1, &TokenKind::FatArrow) {
        let name = match name_opt {
            Some(n) => n,
            None => String::new(),
        };
        if str_eq(name.as_str(), "_") {
            (SwitchPattern::Wildcard, p + 1)
        } else {
            (SwitchPattern::Binding(name), p + 1)
        }
    } else {
        match expression_exec(t, p) {
            Err(d) => {
                return Err(d);
            },
            Ok((v, q)) => (SwitchPattern::Value(v), q),
        }
    };
    match expect_exec(t, q, &TokenKind::FatArrow, "expected `=>` after switch pattern") {
        Err(d) => Err(d),
        Ok(q2) => match expression_exec(t, q2) {
            Err(d) => Err(d),
            Ok((value, q3)) => {
                let end = value.span.end;
                Ok((SwitchArm { pattern, value, span: Span { start, end } }, q3))
            },
        },
    }
}

fn switch_arms_exec(t: &Vec<Token>, p: usize) -> (r: Result<(Vec<SwitchArm>, usize), Diagnostic>)
    requires
        p <= t@.len(),
    ensures
        match r {
            Ok((arms, q)) => switch_arms(tv(t), p as int, seq![]) == Ok::<(Seq<ArmV>, int), DiagnosticV>((arms_view(arms@), q as int))
                && p <= q <= t@.len(),
            Err(d) => switch_arms(tv(t), p as int, seq![]) == Err::<(Seq<ArmV>, int), DiagnosticV>(d@),
        },
    decreases tv(t), tv(t).len() - p, 21int,
{
    proof {
        lemma_tokens_view_len(t@);
    }
    let mut arms: Vec<SwitchArm> = Vec::new();
    let mut i = p;
    loop
        invariant
            tv(t).len() == t@.len(),
            p <= i <= t@.len(),
            switch_arms(tv(t), p as int, seq![]) == switch_arms(tv(t), i as int, arms_view(arms@)),
        decreases t@.len() - i,
    {
        if at_exec(t, i, &TokenKind::RightBrace) || at_exec(t, i, &TokenKind::Eof) {
            return Ok((arms, i));
        }
        match switch_arm_exec(t, i) {
            Err(d) => {
                return Err(d);
            },
            Ok((arm, q)) => {
                proof {
                    lemma_arms_push(arms@, arm);
                }
                arms.push(arm);
                if !at_exec(t, q, &TokenKind::Comma) {
                    return Ok((arms, q));
                }
                let qa = adv_exec(t, q);
                if at_exec(t, qa, &TokenKind::RightBrace) {
                    return Ok((arms, qa));
                }
                i = qa;
            },
        }
    }
}

fn switch_expression_exec(t: &Vec<Token>, p: usize, start: usize) -> (r: Result<(Expression, usize), Diagnostic>)
    requires
        p <= t@.len(),
    ensures
        expr_res(r) == switch_expression(tv(t), p as int, start),
        advanced(r, p as int, t@.len() as int),
    decreases tv(t), tv(t).len() - p, 6int,
{
    proof {
        lemma_tokens_view_len(t@);
    }
    let q = match expect_exec(t, p, &TokenKind::LeftParen, "expected `(` after `switch`") {
        Err(d) => {
            return Err(d);
        },
        Ok(q) => q,
    };
    let (target, q1) = match expression_exec(t, q) {
        Err(d) => {
            return Err(d);
        },
        Ok(x) => x,
    };
    let q2 = match expect_exec(t, q1, &TokenKind::RightParen, "expected `)` after switch target") {
        Err(d) => {
            return Err(d);
        },
        Ok(q2) => q2,
    };
    let q3 = match expect_exec(t, q2, &TokenKind::LeftBrace, "expected `{` before switch arms") {
        Err(d) => {
            return Err(d);
        },
        Ok(q3) => q3,
    };
    let (arms, q4) = match switch_arms_exec(t, q3) {
        Err(d) => {
            return Err(d);
        },
        Ok(x) => x,
    };
    if !at_exec(t, q4, &TokenKind::RightBrace) {
        return Err(Diagnostic::new("expected `}` after switch arms", span_at(t, q4)));
    }
    let end = span_at(t, q4).end;
    match early_catch_all_exec(&arms) {
        Some(sp) => {
            return Err(Diagnostic::new("only the final switch arm can be `_ => ...` or `name => ...`", sp));
        },
        None => {},
    }
    if !last_is_catch_all_exec(&arms) {
        return Err(Diagnostic::new("final switch arm must be `_ => ...` or `name => ...`", Span { start, end }));
    }
    let q5 = adv_exec(t, q4);
    Ok((Expression { kind: ExpressionKind::Switch { target: Box::new(target), arms }, span: Span { start, end } }, q5))
}

fn expr_list_exec(t: &Vec<Token>, p: usize, close: &TokenKind, trailing: bool) -> (r: Result<(Vec<Expression>, usize), Diagnostic>)
    requires
        p <= t@.len(),
    ensures
        exprs_res(r) == expr_list(tv(t), p as int, seq![], kind_view(*close), trailing),
        advanced(r, p as int, t@.len() as int),
    decreases tv(t), tv(t).len() - p, 21int,
{
    proof {
        lemma_tokens_view_len(t@);
    }
    let mut values: Vec<Expression> = Vec::new();
    let mut i = p;
    loop
        invariant
            tv(t).len() == t@.len(),
            p <= i <= t@.len(),
            i == p || p < i,
            expr_list(tv(t), p as int, seq![], kind_view(*close), trailing)
                == expr_list(tv(t), i as int, exprs_view(values@), kind_view(*close), trailing),
        decreases t@.len() - i,
    {
        match expression_exec(t, i) {
            Err(d) => {
                return Err(d);
            },
            Ok((v, q)) => {
                proof {
                    lemma_exprs_push(values@, v);
                }
                values.push(v);
                if !at_exec(t, q, &TokenKind::Comma) {
                    return Ok((values, q));
                }
                let qa = adv_exec(t, q);
                if trailing && at_exec(t, qa, close) {
                    return Ok((values, qa));
                }
                i = qa;
            },
        }
    }
}

fn array_exec(t: &Vec<Token>, p: usize, start: usize) -> (r: Result<(Expression, usize), Diagnostic>)
    requires
        p <= t@.len(),
    ensures
        expr_res(r) == array(tv(t), p as int, start),
        advanced(r, p as int, t@.len() as int),
    decreases tv(t), tv(t).len() - p, 22int,
{
    proof {
        lemma_tokens_view_len(t@);
    }
    let (values, q) = if at_exec(t, p, &TokenKind::RightBracket) {
        (Vec::new(), p)
    } else {
        match expr_list_exec(t, p, &TokenKind::RightBracket, true) {
            Err(d) => {
                return Err(d);
            },
            Ok(x) => x,
        }
    };
    proof {
        assert(exprs_view(Seq::<Expression>::empty()) =~= seq![]);
    }
    match expect_exec(t, q, &TokenKind::RightBracket, "expected `]` after array") {
        Err(d) => Err(d),
        Ok(q2) => {
            let end = span_at(t, q).end;
            Ok((Expression { kind: ExpressionKind::Array(values), span: Span { start, end } }, q2))
        },
    }
}

fn object_fields_exec(t: &Vec<Token>, p: usize) -> (r: Result<(Vec<ObjectField>, usize), Diagnostic>)
    requires
        p <= t@.len(),
    ensures
        fields_res(r) == object_fields(tv(t), p as int, seq![]),
        advanced(r, p as int, t@.len() as int),
    decreases tv(t), tv(t).len() - p, 21int,
{
    proof {
        lemma_tokens_view_len(t@);
    }
    let mut fields: Vec<ObjectField> = Vec::new();
    let mut i = p;
    loop
        invariant
            tv(t).len() == t@.len(),
            p <= i <= t@.len(),
            object_fields(tv(t), p as int, seq![]) == object_fields(tv(t), i as int, fields_view(fields@)),
        decreases t@.len() - i,
    {
        let (name, nspan) = match take_ident_exec(t, i, "expected object field name") {
            Err(d) => {
                return Err(d);
            },
            Ok(x) => x,
        };
        let q = match expect_exec(t, i + 1, &TokenKind::Colon, "expected `:` after object field name") {
            Err(d) => {
                return Err(d);
            },
            Ok(q) => q,
        };
        match expression_exec(t, q) {
            Err(d) => {
                return Err(d);
            },
            Ok((value, q2)) => {
                let end = value.span.end;
                let f = ObjectField { name, value, span: Span { start: nspan.start, end } };
                proof {
                    lemma_fields_push(fields@, f);
                }
                fields.push(f);
                if !at_exec(t, q2, &TokenKind::Comma) {
                    return Ok((fields, q2));
                }
                let qa = adv_exec(t, q2);
                if at_exec(t, qa, &TokenKind::RightBrace) {
                    return Ok((fields, qa));
                }
                i = qa;
            },
        }
    }
}

fn object_exec(t: &Vec<Token>, p: usize, start: usize) -> (r: Result<(Expression, usize), Diagnostic>)
    requires
        p <= t@.len(),
    ensures
        expr_res(r) == object(tv(t), p as int, start),
        advanced(r, p as int, t@.len() as int),
    decreases tv(t), tv(t).len() - p, 22int,
{
    proof {
        lemma_tokens_view_len(t@);
    }
    let (fields, q) = if at_exec(t, p, &TokenKind::RightBrace) {
        (Vec::new(), p)
    } else {
        match object_fields_exec(t, p) {
            Err(d) => {
                return Err(d);
            },
            Ok(x) => x,
        }
    };
    proof {
        assert(fields_view(Seq::<ObjectField>::empty()) =~= seq![]);
    }
    match expect_exec(t, q, &TokenKind::RightBrace, "expected `}` after object") {
        Err(d) => Err(d),
        Ok(q2) => {
            let end = span_at(t, q).end;
            Ok((Expression { kind: ExpressionKind::Object(fields), span: Span { start, end } }, q2))
        },
    }
}

fn arguments_exec(t: &Vec<Token>, p: usize) -> (r: Result<(Vec<Expression>, usize), Diagnostic>)
    requires
        p <= t@.len(),
    ensures
        exprs_res(r) == arguments(tv(t), p as int),
        advanced(r, p as int, t@.len() as int),
    decreases tv(t), tv(t).len() - p, 6int,
{
    proof {
        lemma_tokens_view_len(t@);
    }
    let q = match expect_exec(t, p, &TokenKind::LeftParen, "expected `(` before arguments") {
        Err(d) => {
            return Err(d);
        },
        Ok(q) => q,
    };
    let (args, q2) = if at_exec(t, q, &TokenKind::RightParen) {
        (Vec::new(), q)
    } else {
        match expr_list_exec(t, q, &TokenKind::RightParen, false) {
            Err(d) => {
                return Err(d);
            },
            Ok(x) => x,
        }
    };
    proof {
        assert(exprs_view(Seq::<Expression>::empty()) =~= seq![]);
    }
    match expect_exec(t, q2, &TokenKind::RightParen, "expected `)` after arguments") {
        Err(d) => Err(d),
        Ok(q3) => Ok((args, q3)),
    }
}

fn params_exec(t: &Vec<Token>, p: usize) -> (r: Result<(Vec<String>, usize), Diagnostic>)
    requires
        p <= t@.len(),
    ensures
        names_res(r) == params(tv(t), p as int, seq![]),
        advanced(r, p as int, t@.len() as int),
{
    proof {
        lemma_tokens_view_len(t@);
    }
    let mut names: Vec<String> = Vec::new();
    let mut i = p;
    loop
        invariant
            tv(t).len() == t@.len(),
            p <= i <= t@.len(),
            params(tv(t), p as int, seq![]) == params(tv(t), i as int, strings_view(names@)),
        decreases t@.len() - i,
    {
        if i >= t.len() {
            return Err(Diagnostic::new("expected parameter name", span_at(t, i)));
        }
        match take_ident_exec(t, i, "expected parameter name") {
            Err(d) => {
                return Err(d);
            },
            Ok((name, _)) => {
                let q = i + 1;
                proof {
                    lemma_strings_push(names@, name);
                }
                names.push(name);
                if !at_exec(t, q, &TokenKind::Comma) {
                    return Ok((names, q));
                }
                let qa = adv_exec(t, q);
                if at_exec(t, qa, &TokenKind::RightParen) {
                    return Ok((names, qa));
                }
                i = qa;
            },
        }
    }
}

fn function_definition_exec(t: &Vec<Token>, p: usize) -> (r: Result<(FunctionDefinition, usize), Diagnostic>)
    requires
        p <= t@.len(),
    ensures
        function_res(r) == function_definition(tv(t), p as int),
        advanced(r, p as int, t@.len() as int),
{
    proof {
        lemma_tokens_view_len(t@);
    }
    if !ident_is(t, p, "fun") {
        return Err(Diagnostic::new("expected `fun` before function declaration", span_at(t, p)));
    }
    let start = span_at(t, p).start;
    let (name, _) = match take_ident_exec(t, p + 1, "expected function name after `fun`") {
        Err(d) => {
            return Err(d);
        },
        Ok(x) => x,
    };
    let q = match expect_exec(t, p + 2, &TokenKind::LeftParen, "expected `(` after function name") {
        Err(d) => {
            return Err(d);
        },
        Ok(q) => q,
    };
    let (parameters, q2) = if at_exec(t, q, &TokenKind::RightParen) {
        (Vec::new(), q)
    } else {
        match params_exec(t, q) {
            Err(d) => {
                return Err(d);
            },
            Ok(x) => x,
        }
    };
    proof {
        assert(strings_view(Seq::<String>::empty()) =~= seq![]);
    }
    let q3 = match expect_exec(t, q2, &TokenKind::RightParen, "expected `)` after function parameters") {
        Err(d) => {
            return Err(d);
        },
        Ok(q3) => q3,
    };
    match block_exec(t, q3) {
        Err(d) => Err(d),
        Ok((body, q4)) => {
            let end = span_at(t, q4 - 1).end;
            Ok((FunctionDefinition { name, parameters, body, span: Span { start, end } }, q4))
        },
    }
}

fn test_inputs_exec(t: &Vec<Token>, p: usize) -> (r: Result<(Vec<TestInput>, usize), Diagnostic>)
    requires
        p <= t@.len(),
    ensures
        inputs_res(r) == test_inputs(tv(t), p as int, seq![]),
        advanced(r, p as int, t@.len() as int),
{
    proof {
        lemma_tokens_view_len(t@);
    }
    let mut inputs: Vec<TestInput> = Vec::new();
    let mut i = p;
    loop
        invariant
            tv(t).len() == t@.len(),
            p <= i <= t@.len(),
            test_inputs(tv(t), p as int, seq![]) == test_inputs(tv(t), i as int, test_inputs_view(inputs@)),
        decreases t@.len() - i,
    {
        if i >= t.len() {
            return Err(Diagnostic::new("expected test input name", span_at(t, i)));
        }
        let (name, nspan) = match take_ident_exec(t, i, "expected test input name") {
            Err(d) => {
                return Err(d);
            },
            Ok(x) => x,
        };
        let q = match expect_exec(t, i + 1, &TokenKind::Equal, "expected `=` after test input name") {
            Err(d) => {
                return Err(d);
            },
            Ok(q) => q,
        };
        match expression_exec(t, q) {
            Err(d) => {
                return Err(d);
            },
            Ok((value, q2)) => {
                let visibility = visibility_for_exec(&name);
                let end = value.span.end;
                let input = TestInput { name, visibility, value, span: Span { start: nspan.start, end } };
                proof {
                    lemma_test_inputs_push(inputs@, input);
                }
                inputs.push(input);
                if !at_exec(t, q2, &TokenKind::Comma) {
                    return Ok((inputs, q2));
                }
                let qa = adv_exec(t, q2);
                if at_exec(t, qa, &TokenKind::RightParen) {
                    return Ok((inputs, qa));
                }
                i = qa;
            },
        }
    }
}

fn test_block_exec(t: &Vec<Token>, p: usize) -> (r: Result<(TestBlock, usize), Diagnostic>)
    requires
        p <= t@.len(),
    ensures
        test_res(r) == test_block(tv(t), p as int),
        advanced(r, p as int, t@.len() as int),
{
    proof {
        lemma_tokens_view_len(t@);
    }
    if !ident_is(t, p, "test") {
        return Err(Diagnostic::new("expected `test` before test block", span_at(t, p)));
    }
    let start = span_at(t, p).start;
    let q = p + 1;
    let (inputs, runs_script, q4) = if at_exec(t, q, &TokenKind::LeftParen) {
        let q1 = adv_exec(t, q);
        let (inputs, q2) = if at_exec(t, q1, &TokenKind::RightParen) {
            (Vec::new(), q1)
        } else {
            match test_inputs_exec(t, q1) {
                Err(d) => {
                    return Err(d);
                },
                Ok(x) => x,
            }
        };
        proof {
            assert(test_inputs_view(Seq::<TestInput>::empty()) =~= seq![]);
        }
        match expect_exec(t, q2, &TokenKind::RightParen, "expected `)` after test inputs") {
            Err(d) => {
                return Err(d);
            },
            Ok(q3) => (inputs, true, q3),
        }
    } else {
        (Vec::new(), false, q)
    };
    proof {
        assert(test_inputs_view(Seq::<TestInput>::empty()) =~= seq![]);
    }
    match block_exec(t, q4) {
        Err(d) => Err(d),
        Ok((body, q5)) => {
            let end = span_at(t, q5 - 1).end;
            Ok((TestBlock { inputs, body, runs_script, span: Span { start, end } }, q5))
        },
    }
}

/// Parses a token sequence into a program.
fn parse_tokens_exec(t: &Vec<Token>) -> (r: Result<Program, Diagnostic>)
    ensures
        match r {
            Ok(prog) => parse_tokens(tv(t)) == Ok::<crate::ast::ProgramV, DiagnosticV>(program_view(prog)),
            Err(d) => parse_tokens(tv(t)) == Err::<crate::ast::ProgramV, DiagnosticV>(d@),
        },
{
    proof {
        lemma_tokens_view_len(t@);
        assert(functions_view(Seq::<FunctionDefinition>::empty()) =~= seq![]);
        assert(tests_view(Seq::<TestBlock>::empty()) =~= seq![]);
        assert(stmts_view(Seq::<Statement>::empty()) =~= seq![]);
    }
    let mut functions: Vec<FunctionDefinition> = Vec::new();
    let mut tests: Vec<TestBlock> = Vec::new();
    let mut statements: Vec<Statement> = Vec::new();
    let mut i: usize = 0;
    while !at_exec(t, i, &TokenKind::Eof)
        invariant
            tv(t).len() == t@.len(),
            i <= t@.len(),
            parse_tokens(tv(t)) == program_items(
                tv(t),
                i as int,
                functions_view(functions@),
                tests_view(tests@),
                stmts_view(statements@),
            ),
        decreases t@.len() - i,
    {
        if ident_is(t, i, "fun") {
            match function_definition_exec(t, i) {
                Err(d) => {
                    return Err(d);
                },
                Ok((f, q)) => {
                    proof {
                        lemma_functions_push(functions@, f);
                    }
                    functions.push(f);
                    i = q;
                },
            }
        } else if ident_is(t, i, "test") && i + 1 < t.len() && (at_exec(t, i + 1, &TokenKind::LeftParen) || at_exec(t, i + 1, &TokenKind::LeftBrace)) {
            match test_block_exec(t, i) {
                Err(d) => {
                    return Err(d);
                },
                Ok((b, q)) => {
                    proof {
                        lemma_tests_push(tests@, b);
                    }
                    tests.push(b);
                    i = q;
                },
            }
        } else {
            match statement_exec(t, i) {
                Err(d) => {
                    return Err(d);
                },
                Ok((s, q)) => {
                    proof {
                        lemma_stmts_push(statements@, s);
                    }
                    statements.push(s);
                    i = q;
                },
            }
        }
    }
    let end = span_at(t, i).end;
    Ok(Program { functions, tests, statements, span: Span { start: 0, end } })
}

/// Parses extractor source into a program: the program that `spec_parse`
/// gives, or the first lexical or syntax error.
pub fn parse(source: &str) -> (r: Result<Program, CompileError>)
    ensures
        match r {
            Ok(prog) => spec_parse(source@) == Ok::<crate::ast::ProgramV, DiagnosticV>(program_view(prog)),
            Err(err) => spec_parse(source@) == Err::<crate::ast::ProgramV, DiagnosticV>(err@[0]) && err@.len() == 1,
        },
{
    let tokens = match lex(source) {
        Ok(ts) => ts,
        Err(e) => {
            return Err(e);
        },
    };
    match parse_tokens_exec(&tokens) {
        Ok(prog) => Ok(prog),
        Err(d) => Err(CompileError::new(d)),
    }
}

} // verus!
