//! The canonical text of a program: one statement per line, four spaces per
//! block level, and parentheses only where precedence needs them.

use vstd::prelude::*;
use crate::ast::{
    AssignmentOperator, BinaryOperator, UnaryOperator, Visibility, ExprV, ExprKindV, IPartV,
    FieldV, ArmV, PatternV, StmtV, StmtKindV, FunctionV, TestBlockV, TestInputV, ProgramV,
    Expression, ExpressionKind, InterpolatedStringPart, ObjectField, SwitchArm, SwitchPattern,
    Statement, StatementKind, FunctionDefinition, TestBlock, TestInput, expr_view, exprs_view,
    iparts_view, fields_view, arms_view, stmt_view, stmts_view, strings_view, function_view,
    test_view, test_inputs_view, functions_view, tests_view, program_view, lemma_strings_len,
    lemma_strings_index, lemma_exprs_len, lemma_exprs_index, lemma_iparts_len, lemma_iparts_index,
    lemma_fields_len, lemma_fields_index, lemma_arms_len, lemma_arms_index, lemma_stmts_len,
    lemma_stmts_index, lemma_test_inputs_len, lemma_test_inputs_index, lemma_functions_len,
    lemma_functions_index, lemma_tests_len, lemma_tests_index,
};
use crate::ast::Program;
use crate::diagnostic::CompileError;
use crate::program::{compile, spec_compile};
use crate::text::{chars_of, str_eq, string_from_range, string_push, string_push_str};

verus! {

// ---------------------------------------------------------------------------
// The text, as spec functions
// ---------------------------------------------------------------------------

/// The indentation of the next block level.
pub open spec fn deeper(ind: Seq<char>) -> Seq<char> {
    ind + "    "@
}

pub open spec fn binary_precedence(op: BinaryOperator) -> u8 {
    match op {
        BinaryOperator::Or => 1,
        BinaryOperator::And => 2,
        BinaryOperator::Equal | BinaryOperator::NotEqual => 3,
        BinaryOperator::Less | BinaryOperator::LessEqual | BinaryOperator::Greater
        | BinaryOperator::GreaterEqual => 4,
        BinaryOperator::Add | BinaryOperator::Subtract => 5,
        BinaryOperator::Multiply | BinaryOperator::Divide | BinaryOperator::Remainder => 6,
    }
}

pub open spec fn binary_text(op: BinaryOperator) -> Seq<char> {
    match op {
        BinaryOperator::Or => "||"@,
        BinaryOperator::And => "&&"@,
        BinaryOperator::Equal => "=="@,
        BinaryOperator::NotEqual => "!="@,
        BinaryOperator::Less => "<"@,
        BinaryOperator::LessEqual => "<="@,
        BinaryOperator::Greater => ">"@,
        BinaryOperator::GreaterEqual => ">="@,
        BinaryOperator::Add => "+"@,
        BinaryOperator::Subtract => "-"@,
        BinaryOperator::Multiply => "*"@,
        BinaryOperator::Divide => "/"@,
        BinaryOperator::Remainder => "%"@,
    }
}

/// How tightly an expression binds: conditional expressions and lambdas
/// loosest, then the binary operators, unary operators, and postfix forms
/// and atoms tightest.
pub open spec fn precedence(e: ExprV) -> u8 {
    match e.kind {
        ExprKindV::IfElse { .. } | ExprKindV::Lambda { .. } | ExprKindV::BlockIf { .. } => 0,
        ExprKindV::Binary { operator, .. } => binary_precedence(operator),
        ExprKindV::Unary { .. } => 7,
        _ => 8,
    }
}

/// The number of postfix operations (method calls, functional blocks, `!`,
/// subscripts) applied one after another to the chain's base.
pub open spec fn chain_len(e: ExprV) -> nat
    decreases e,
{
    match e.kind {
        ExprKindV::MethodCall { receiver, .. } => 1 + chain_len(*receiver),
        ExprKindV::FunctionalBlock { receiver, .. } => 1 + chain_len(*receiver),
        ExprKindV::Subscript { receiver, .. } => 1 + chain_len(*receiver),
        ExprKindV::Required(inner) => 1 + chain_len(*inner),
        _ => 0,
    }
}

pub open spec fn escape_char(c: char) -> Seq<char> {
    if c == '\\' {
        "\\\\"@
    } else if c == '"' {
        "\\\""@
    } else if c == '\n' {
        "\\n"@
    } else if c == '\r' {
        "\\r"@
    } else if c == '\t' {
        "\\t"@
    } else {
        seq![c]
    }
}

/// A character of an f-string's literal text: braces doubled, others as
/// in a string.
pub open spec fn escape_interp_char(c: char) -> Seq<char> {
    if c == '{' {
        "{{"@
    } else if c == '}' {
        "}}"@
    } else {
        escape_char(c)
    }
}

/// An f-string's literal text, escaped.
pub open spec fn escaped_interp(s: Seq<char>) -> Seq<char>
    decreases s.len(),
{
    if s.len() == 0 {
        seq![]
    } else {
        escaped_interp(s.drop_last()) + escape_interp_char(s.last())
    }
}

/// String content with backslash, quote, newline, return and tab escaped.
pub open spec fn escaped(s: Seq<char>) -> Seq<char>
    decreases s.len(),
{
    if s.len() == 0 {
        seq![]
    } else {
        escaped(s.drop_last()) + escape_char(s.last())
    }
}

pub open spec fn key_char(c: char) -> bool {
    ('a' <= c && c <= 'z') || ('A' <= c && c <= 'Z') || c == '_'
}

/// A string subscript that prints as `.key`: ASCII letters and `_` only.
pub open spec fn dot_key(s: Seq<char>) -> bool {
    s.len() > 0 && forall|i: int| 0 <= i < s.len() ==> key_char(#[trigger] s[i])
}

/// `name` without its trailing `@`s.
pub open spec fn trim_at(name: Seq<char>) -> Seq<char>
    decreases name.len(),
{
    if name.len() > 0 && name.last() == '@' {
        trim_at(name.drop_last())
    } else {
        name
    }
}

pub open spec fn ends_at(name: Seq<char>) -> bool {
    name.len() > 0 && name.last() == '@'
}

/// Names joined with `, `.
pub open spec fn joined(names: Seq<Seq<char>>) -> Seq<char>
    decreases names.len(),
{
    if names.len() == 0 {
        seq![]
    } else if names.len() == 1 {
        names[0]
    } else {
        joined(names.drop_last()) + ", "@ + names.last()
    }
}

pub open spec fn sep(i: int) -> Seq<char> {
    if i > 0 {
        ", "@
    } else {
        seq![]
    }
}

/// An expression's text at indentation `ind`. A postfix chain of four or
/// more operations puts each operation on its own line one level deeper.
pub open spec fn fmt_expr(e: ExprV, ind: Seq<char>) -> Seq<char>
    decreases e, 1int,
{
    match e.kind {
        ExprKindV::Null => "null"@,
        ExprKindV::Boolean(b) => if b { "true"@ } else { "false"@ },
        ExprKindV::Number(v) => v,
        ExprKindV::Str(v) => "\""@ + escaped(v) + "\""@,
        ExprKindV::InterpolatedString(parts) => "f\""@ + fmt_parts(parts, ind, 0) + "\""@,
        ExprKindV::Array(values) => "["@ + fmt_list(values, ind, 0) + "]"@,
        ExprKindV::Object(fields) => "{"@ + fmt_fields(fields, ind, 0) + "}"@,
        ExprKindV::Variable(name) => name,
        ExprKindV::Identifier(name) => name,
        ExprKindV::FunctionCall { name, arguments } =>
            trim_at(name) + (if ends_at(name) { "@"@ } else { seq![] }) + "("@ + fmt_list(arguments, ind, 0) + ")"@,
        ExprKindV::QualifiedFunctionCall { module, name, arguments } =>
            module + "."@ + name + "("@ + fmt_list(arguments, ind, 0) + ")"@,
        ExprKindV::CoreCall { name, arguments } => name + "("@ + fmt_list(arguments, ind, 0) + ")"@,
        ExprKindV::MethodCall { receiver, .. } => if chain_len(e) >= 4 {
            fmt_chain(*receiver, ind) + "\n"@ + deeper(ind) + fmt_segment(e, deeper(ind))
        } else {
            fmt_min(*receiver, 8, ind) + fmt_segment(e, ind)
        },
        ExprKindV::FunctionalBlock { receiver, .. } => if chain_len(e) >= 4 {
            fmt_chain(*receiver, ind) + "\n"@ + deeper(ind) + fmt_segment(e, deeper(ind))
        } else {
            fmt_min(*receiver, 8, ind) + fmt_segment(e, ind)
        },
        ExprKindV::Required(inner) => if chain_len(e) >= 4 {
            fmt_chain(*inner, ind) + "\n"@ + deeper(ind) + fmt_segment(e, deeper(ind))
        } else {
            fmt_min(*inner, 8, ind) + fmt_segment(e, ind)
        },
        ExprKindV::Subscript { receiver, .. } => if chain_len(e) >= 4 {
            fmt_chain(*receiver, ind) + "\n"@ + deeper(ind) + fmt_segment(e, deeper(ind))
        } else {
            fmt_min(*receiver, 8, ind) + fmt_segment(e, ind)
        },
        ExprKindV::Lambda { parameters, body } => if parameters == seq!["it"@] {
            fmt_expr(*body, ind)
        } else if parameters.len() == 1 {
            parameters[0] + " => "@ + fmt_expr(*body, ind)
        } else {
            "("@ + joined(parameters) + ") => "@ + fmt_expr(*body, ind)
        },
        ExprKindV::Unary { operator, operand } =>
            (if operator == UnaryOperator::Negate { "-"@ } else { "!"@ }) + fmt_min(*operand, 7, ind),
        ExprKindV::Binary { left, operator, right } =>
            fmt_child(*left, binary_precedence(operator), false, ind) + " "@ + binary_text(operator) + " "@
                + fmt_child(*right, binary_precedence(operator), true, ind),
        ExprKindV::IfElse { condition, then_branch, else_branch } =>
            fmt_min(*then_branch, 1, ind) + " if "@ + fmt_min(*condition, 1, ind) + " else "@
                + fmt_expr(*else_branch, ind),
        ExprKindV::BlockIf { condition, then_branch, else_branch } =>
            "if "@ + fmt_expr(*condition, ind) + " "@ + fmt_block(then_branch, ind) + match else_branch {
                Some(b) => " else "@ + fmt_block(b, ind),
                None => seq![],
            },
        ExprKindV::Switch { target, arms } =>
            "switch("@ + fmt_expr(*target, ind) + ") {"@ + if arms.len() == 0 {
                "}"@
            } else {
                "\n"@ + fmt_arms(arms, deeper(ind), 0) + ind + "}"@
            },
    }
}

/// A chain's base, then each operation on a line of its own.
pub open spec fn fmt_chain(x: ExprV, ind: Seq<char>) -> Seq<char>
    decreases x, 3int,
{
    match x.kind {
        ExprKindV::MethodCall { receiver, .. } => fmt_chain(*receiver, ind) + "\n"@ + deeper(ind) + fmt_segment(x, deeper(ind)),
        ExprKindV::FunctionalBlock { receiver, .. } => fmt_chain(*receiver, ind) + "\n"@ + deeper(ind) + fmt_segment(x, deeper(ind)),
        ExprKindV::Required(inner) => fmt_chain(*inner, ind) + "\n"@ + deeper(ind) + fmt_segment(x, deeper(ind)),
        ExprKindV::Subscript { receiver, .. } => fmt_chain(*receiver, ind) + "\n"@ + deeper(ind) + fmt_segment(x, deeper(ind)),
        _ => fmt_min(x, 8, ind),
    }
}

/// The text a postfix operation adds after its receiver.
pub open spec fn fmt_segment(e: ExprV, ind: Seq<char>) -> Seq<char>
    decreases e, 0int,
{
    match e.kind {
        ExprKindV::MethodCall { name, multiple, arguments, .. } =>
            "."@ + name + (if multiple { "@"@ } else { seq![] }) + "("@ + fmt_list(arguments, ind, 0) + ")"@,
        ExprKindV::FunctionalBlock { method, body, .. } => "."@ + method + " "@ + fmt_block(body, ind),
        ExprKindV::Required(_) => "!"@,
        ExprKindV::Subscript { index, .. } => match index.kind {
            ExprKindV::Str(name) => if dot_key(name) {
                "."@ + name
            } else {
                "["@ + fmt_expr(*index, ind) + "]"@
            },
            _ => "["@ + fmt_expr(*index, ind) + "]"@,
        },
        _ => seq![],
    }
}

/// `e` in parentheses when it binds looser than `minimum`.
pub open spec fn fmt_min(e: ExprV, minimum: u8, ind: Seq<char>) -> Seq<char>
    decreases e, 2int,
{
    if precedence(e) < minimum {
        "("@ + fmt_expr(e, ind) + ")"@
    } else {
        fmt_expr(e, ind)
    }
}

/// An operand of a binary operator of precedence `parent`; a right operand
/// of equal precedence is parenthesized too.
pub open spec fn fmt_child(e: ExprV, parent: u8, is_right: bool, ind: Seq<char>) -> Seq<char>
    decreases e, 2int,
{
    if precedence(e) < parent || (is_right && precedence(e) == parent) {
        "("@ + fmt_expr(e, ind) + ")"@
    } else {
        fmt_expr(e, ind)
    }
}

/// Expressions from `i` on, separated by `, `.
pub open spec fn fmt_list(es: Seq<ExprV>, ind: Seq<char>, i: int) -> Seq<char>
    decreases es, es.len() - i,
{
    if i < 0 || i >= es.len() {
        seq![]
    } else {
        sep(i) + fmt_expr(es[i], ind) + fmt_list(es, ind, i + 1)
    }
}

pub open spec fn fmt_fields(fields: Seq<FieldV>, ind: Seq<char>, i: int) -> Seq<char>
    decreases fields, fields.len() - i,
{
    if i < 0 || i >= fields.len() {
        seq![]
    } else {
        sep(i) + fields[i].name + ": "@ + fmt_expr(fields[i].value, ind) + fmt_fields(fields, ind, i + 1)
    }
}

pub open spec fn fmt_parts(parts: Seq<IPartV>, ind: Seq<char>, i: int) -> Seq<char>
    decreases parts, parts.len() - i,
{
    if i < 0 || i >= parts.len() {
        seq![]
    } else {
        match parts[i] {
            IPartV::Literal(v) => escaped_interp(v) + fmt_parts(parts, ind, i + 1),
            IPartV::Expression(x) => "{"@ + fmt_expr(x, ind) + "}"@ + fmt_parts(parts, ind, i + 1),
        }
    }
}

/// Switch arms from `i` on, each on its own line at `ind`, all but the
/// last followed by a comma.
pub open spec fn fmt_arms(arms: Seq<ArmV>, ind: Seq<char>, i: int) -> Seq<char>
    decreases arms, arms.len() - i,
{
    if i < 0 || i >= arms.len() {
        seq![]
    } else {
        let pattern = match arms[i].pattern {
            PatternV::Value(v) => fmt_expr(v, ind),
            PatternV::Wildcard => "_"@,
            PatternV::Binding(name) => name,
        };
        ind + pattern + " => "@ + fmt_expr(arms[i].value, ind) + (if i + 1 < arms.len() { ","@ } else { seq![] })
            + "\n"@ + fmt_arms(arms, ind, i + 1)
    }
}

pub open spec fn assignment_text(op: AssignmentOperator) -> Seq<char> {
    match op {
        AssignmentOperator::Assign => " = "@,
        AssignmentOperator::Add => " += "@,
        AssignmentOperator::Subtract => " -= "@,
    }
}

/// The `_` a private name gets when it lacks one.
pub open spec fn private_prefix(visibility: Visibility, name: Seq<char>) -> Seq<char> {
    if visibility == Visibility::Private && !(name.len() > 0 && name[0] == '_') {
        "_"@
    } else {
        seq![]
    }
}

/// A statement's line (or lines) at indentation `ind`.
pub open spec fn fmt_stmt(s: StmtV, ind: Seq<char>) -> Seq<char>
    decreases s, 0int,
{
    ind + match s.kind {
        StmtKindV::Assignment { name, operator, visibility, value } =>
            private_prefix(visibility, name) + name + assignment_text(operator) + fmt_expr(value, ind) + "\n"@,
        StmtKindV::ComputedAssignment { name, value } =>
            "["@ + fmt_expr(name, ind) + "] = "@ + fmt_expr(value, ind) + "\n"@,
        StmtKindV::Return(value) => "return "@ + fmt_expr(value, ind) + "\n"@,
        StmtKindV::While { condition, body } =>
            "while "@ + fmt_expr(condition, ind) + " "@ + fmt_block(body, ind) + "\n"@,
        StmtKindV::Loop { body } => "loop "@ + fmt_block(body, ind) + "\n"@,
        StmtKindV::Break => "break\n"@,
        StmtKindV::Expression(x) => fmt_expr(x, ind) + "\n"@,
    }
}

pub open spec fn fmt_stmts(ss: Seq<StmtV>, ind: Seq<char>, i: int) -> Seq<char>
    decreases ss, ss.len() - i,
{
    if i < 0 || i >= ss.len() {
        seq![]
    } else {
        fmt_stmt(ss[i], ind) + fmt_stmts(ss, ind, i + 1)
    }
}

/// A block: `{}` when empty, else its statements one level deeper.
pub open spec fn fmt_block(ss: Seq<StmtV>, ind: Seq<char>) -> Seq<char>
    decreases ss, ss.len() + 1,
{
    if ss.len() == 0 {
        "{}"@
    } else {
        "{\n"@ + fmt_stmts(ss, deeper(ind), 0) + ind + "}"@
    }
}

pub open spec fn fmt_function(f: FunctionV) -> Seq<char> {
    "fun "@ + f.name + "("@ + joined(f.parameters) + ") "@ + fmt_block(f.body, seq![])
}

pub open spec fn fmt_inputs(inputs: Seq<TestInputV>, i: int) -> Seq<char>
    decreases inputs.len() - i,
{
    if i < 0 || i >= inputs.len() {
        seq![]
    } else {
        sep(i) + inputs[i].name + " = "@ + fmt_expr(inputs[i].value, seq![]) + fmt_inputs(inputs, i + 1)
    }
}

pub open spec fn fmt_test(t: TestBlockV) -> Seq<char> {
    "test"@ + (if t.runs_script { "("@ + fmt_inputs(t.inputs, 0) + ")"@ } else { seq![] }) + " "@
        + fmt_block(t.body, seq![])
}

pub open spec fn ends_with_newline(out: Seq<char>) -> bool {
    out.len() > 0 && out.last() == '\n'
}

/// Makes `out` end in an empty line.
pub open spec fn blank_line(out: Seq<char>) -> Seq<char> {
    if out.len() >= 2 && out[out.len() - 2] == '\n' && out.last() == '\n' {
        out
    } else if ends_with_newline(out) {
        out.push('\n')
    } else {
        out + "\n\n"@
    }
}

/// `out` followed by the functions from `i` on, an empty line between two.
pub open spec fn fmt_functions(out: Seq<char>, fs: Seq<FunctionV>, i: int) -> Seq<char>
    decreases fs.len() - i,
{
    if i < 0 || i >= fs.len() {
        out
    } else {
        let before = if i > 0 { blank_line(out) } else { out };
        fmt_functions(before + fmt_function(fs[i]), fs, i + 1)
    }
}

/// `out` followed by the tests from `i` on, an empty line before each but
/// the first, and before the first too when `first_blank`.
pub open spec fn fmt_tests(out: Seq<char>, ts: Seq<TestBlockV>, first_blank: bool, i: int) -> Seq<char>
    decreases ts.len() - i,
{
    if i < 0 || i >= ts.len() {
        out
    } else {
        let before = if i > 0 || first_blank { blank_line(out) } else { out };
        fmt_tests(before + fmt_test(ts[i]), ts, first_blank, i + 1)
    }
}

/// The formatted program: functions, then top-level statements, then tests,
/// the three groups apart by an empty line, ending in a newline.
pub open spec fn fmt_program(p: ProgramV) -> Seq<char> {
    let a = fmt_functions(seq![], p.functions, 0);
    let b = if p.statements.len() > 0 && p.functions.len() > 0 { blank_line(a) } else { a };
    let c = b + fmt_stmts(p.statements, seq![], 0);
    let d = if p.statements.len() > 0 && p.tests.len() > 0 { blank_line(c) } else { c };
    let e = fmt_tests(d, p.tests, p.statements.len() == 0 && p.functions.len() > 0, 0);
    if ends_with_newline(e) {
        e
    } else {
        e.push('\n')
    }
}


// ---------------------------------------------------------------------------
// Helpers
// ---------------------------------------------------------------------------

fn deeper_exec(ind: &str) -> (r: String)
    ensures
        r@ == deeper(ind@),
{
    let mut r = ind.to_owned();
    string_push_str(&mut r, "    ");
    r
}

fn binary_precedence_exec(op: BinaryOperator) -> (r: u8)
    ensures
        r == binary_precedence(op),
{
    match op {
        BinaryOperator::Or => 1,
        BinaryOperator::And => 2,
        BinaryOperator::Equal | BinaryOperator::NotEqual => 3,
        BinaryOperator::Less | BinaryOperator::LessEqual | BinaryOperator::Greater
        | BinaryOperator::GreaterEqual => 4,
        BinaryOperator::Add | BinaryOperator::Subtract => 5,
        BinaryOperator::Multiply | BinaryOperator::Divide | BinaryOperator::Remainder => 6,
    }
}

fn binary_text_exec(op: BinaryOperator) -> (r: &'static str)
    ensures
        r@ == binary_text(op),
{
    match op {
        BinaryOperator::Or => "||",
        BinaryOperator::And => "&&",
        BinaryOperator::Equal => "==",
        BinaryOperator::NotEqual => "!=",
        BinaryOperator::Less => "<",
        BinaryOperator::LessEqual => "<=",
        BinaryOperator::Greater => ">",
        BinaryOperator::GreaterEqual => ">=",
        BinaryOperator::Add => "+",
        BinaryOperator::Subtract => "-",
        BinaryOperator::Multiply => "*",
        BinaryOperator::Divide => "/",
        BinaryOperator::Remainder => "%",
    }
}

fn precedence_exec(e: &Expression) -> (r: u8)
    ensures
        r == precedence(expr_view(*e)),
{
    match &e.kind {
        ExpressionKind::IfElse { .. } | ExpressionKind::Lambda { .. } | ExpressionKind::BlockIf { .. } => 0,
        ExpressionKind::Binary { operator, .. } => binary_precedence_exec(*operator),
        ExpressionKind::Unary { .. } => 7,
        _ => 8,
    }
}

/// Whether at least `k` postfix operations are chained on `e`.
fn chain_reaches(e: &Expression, k: u8) -> (r: bool)
    ensures
        r == (chain_len(expr_view(*e)) >= k),
    decreases k,
{
    if k == 0 {
        return true;
    }
    match &e.kind {
        ExpressionKind::MethodCall { receiver, .. } => chain_reaches(receiver, k - 1),
        ExpressionKind::FunctionalBlock { receiver, .. } => chain_reaches(receiver, k - 1),
        ExpressionKind::Subscript { receiver, .. } => chain_reaches(receiver, k - 1),
        ExpressionKind::Required(inner) => chain_reaches(inner, k - 1),
        _ => false,
    }
}

fn key_char_exec(c: char) -> (r: bool)
    ensures
        r == key_char(c),
{
    ('a' <= c && c <= 'z') || ('A' <= c && c <= 'Z') || c == '_'
}

fn dot_key_exec(s: &str) -> (r: bool)
    ensures
        r == dot_key(s@),
{
    let cs = chars_of(s);
    if cs.len() == 0 {
        return false;
    }
    let mut i: usize = 0;
    while i < cs.len()
        invariant
            cs@ == s@,
            i <= cs@.len(),
            forall|j: int| 0 <= j < i ==> key_char(#[trigger] cs@[j]),
        decreases cs@.len() - i,
    {
        if !key_char_exec(cs[i]) {
            return false;
        }
        i = i + 1;
    }
    true
}

proof fn lemma_trim_at_prefix(name: Seq<char>, j: int)
    requires
        0 <= j <= name.len(),
        forall|k: int| j <= k < name.len() ==> name[k] == '@',
    ensures
        trim_at(name) == trim_at(name.subrange(0, j)),
    decreases name.len() - j,
{
    if j < name.len() {
        assert(name.drop_last() =~= name.subrange(0, name.len() - 1));
        assert(name.subrange(0, name.len() - 1).subrange(0, j) =~= name.subrange(0, j));
        lemma_trim_at_prefix(name.drop_last(), j);
    } else {
        assert(name.subrange(0, j) =~= name);
    }
}

/// `name` without its trailing `@`s.
fn trim_at_exec(name: &str) -> (r: String)
    ensures
        r@ == trim_at(name@),
{
    let cs = chars_of(name);
    let mut j: usize = cs.len();
    while j > 0 && cs[j - 1] == '@'
        invariant
            cs@ == name@,
            j <= cs@.len(),
            forall|k: int| j <= k < cs@.len() ==> cs@[k] == '@',
        decreases j,
    {
        j = j - 1;
    }
    proof {
        lemma_trim_at_prefix(name@, j as int);
        let t = name@.subrange(0, j as int);
        if j > 0 {
            assert(t.last() != '@');
        }
        assert(trim_at(t) == t);
    }
    string_from_range(&cs, 0, j)
}

fn ends_at_exec(name: &str) -> (r: bool)
    ensures
        r == ends_at(name@),
{
    let cs = chars_of(name);
    cs.len() > 0 && cs[cs.len() - 1] == '@'
}

/// Whether a lambda's parameters are the single implicit `it`.
fn only_it(parameters: &Vec<String>) -> (r: bool)
    ensures
        r == (strings_view(parameters@) == seq!["it"@]),
{
    proof {
        lemma_strings_len(parameters@);
    }
    if parameters.len() == 1 {
        proof {
            lemma_strings_index(parameters@, 0);
        }
        let r = str_eq(parameters[0].as_str(), "it");
        proof {
            if r {
                assert(strings_view(parameters@) =~= seq!["it"@]);
            } else {
                assert(strings_view(parameters@)[0] != seq!["it"@][0]);
            }
        }
        r
    } else {
        proof {
            assert(strings_view(parameters@).len() != seq!["it"@].len());
        }
        false
    }
}

fn assignment_text_exec(op: AssignmentOperator) -> (r: &'static str)
    ensures
        r@ == assignment_text(op),
{
    match op {
        AssignmentOperator::Assign => " = ",
        AssignmentOperator::Add => " += ",
        AssignmentOperator::Subtract => " -= ",
    }
}

fn needs_private_prefix(visibility: Visibility, name: &str) -> (r: bool)
    ensures
        r == (visibility == Visibility::Private && !(name@.len() > 0 && name@[0] == '_')),
{
    match visibility {
        Visibility::Private => {
            let cs = chars_of(name);
            !(cs.len() > 0 && cs[0] == '_')
        },
        Visibility::Public => false,
    }
}


// ---------------------------------------------------------------------------
// The printer
// ---------------------------------------------------------------------------

/// The text written so far.
struct Formatter {
    out: Vec<char>,
}

impl Formatter {
    fn write(&mut self, s: &str)
        ensures
            final(self).out@ == old(self).out@ + s@,
    {
        let cs = chars_of(s);
        let ghost start = self.out@;
        let mut i: usize = 0;
        while i < cs.len()
            invariant
                cs@ == s@,
                i <= cs@.len(),
                self.out@ == start + cs@.take(i as int),
            decreases cs@.len() - i,
        {
            self.out.push(cs[i]);
            proof {
                assert(self.out@ =~= start + cs@.take(i + 1));
            }
            i = i + 1;
        }
        proof {
            assert(cs@.take(cs@.len() as int) =~= cs@);
        }
    }

    fn escaped(&mut self, v: &str)
        ensures
            final(self).out@ == old(self).out@ + escaped(v@),
    {
        let cs = chars_of(v);
        let ghost start = self.out@;
        let mut i: usize = 0;
        while i < cs.len()
            invariant
                cs@ == v@,
                i <= cs@.len(),
                self.out@ == start + escaped(cs@.take(i as int)),
            decreases cs@.len() - i,
        {
            let c = cs[i];
            if c == '\\' {
                self.write("\\\\");
            } else if c == '"' {
                self.write("\\\"");
            } else if c == '\n' {
                self.write("\\n");
            } else if c == '\r' {
                self.write("\\r");
            } else if c == '\t' {
                self.write("\\t");
            } else {
                self.out.push(c);
            }
            proof {
                assert(cs@.take(i + 1).drop_last() =~= cs@.take(i as int));
                assert(cs@.take(i + 1).last() == c);
                assert(self.out@ =~= start + escaped(cs@.take(i + 1)));
            }
            i = i + 1;
        }
        proof {
            assert(cs@.take(cs@.len() as int) =~= cs@);
        }
    }

    fn escaped_interp(&mut self, v: &str)
        ensures
            final(self).out@ == old(self).out@ + escaped_interp(v@),
    {
        let cs = chars_of(v);
        let ghost start = self.out@;
        let mut i: usize = 0;
        while i < cs.len()
            invariant
                cs@ == v@,
                i <= cs@.len(),
                self.out@ == start + escaped_interp(cs@.take(i as int)),
            decreases cs@.len() - i,
        {
            let c = cs[i];
            if c == '{' {
                self.write("{{");
            } else if c == '}' {
                self.write("}}");
            } else if c == '\\' {
                self.write("\\\\");
            } else if c == '"' {
                self.write("\\\"");
            } else if c == '\n' {
                self.write("\\n");
            } else if c == '\r' {
                self.write("\\r");
            } else if c == '\t' {
                self.write("\\t");
            } else {
                self.out.push(c);
            }
            proof {
                assert(cs@.take(i + 1).drop_last() =~= cs@.take(i as int));
                assert(cs@.take(i + 1).last() == c);
                assert(self.out@ =~= start + escaped_interp(cs@.take(i + 1)));
            }
            i = i + 1;
        }
        proof {
            assert(cs@.take(cs@.len() as int) =~= cs@);
        }
    }

    fn joined(&mut self, names: &Vec<String>)
        ensures
            final(self).out@ == old(self).out@ + joined(strings_view(names@)),
    {
        let ghost nv = strings_view(names@);
        proof {
            lemma_strings_len(names@);
        }
        let ghost start = self.out@;
        let mut i: usize = 0;
        while i < names.len()
            invariant
                nv == strings_view(names@),
                nv.len() == names@.len(),
                i <= names@.len(),
                self.out@ == start + joined(nv.take(i as int)),
            decreases names@.len() - i,
        {
            proof {
                lemma_strings_index(names@, i as int);
                assert(nv.take(i + 1).drop_last() =~= nv.take(i as int));
            }
            if i > 0 {
                self.write(", ");
            }
            self.write(names[i].as_str());
            proof {
                if i == 0 {
                    assert(joined(nv.take(1)) == nv.take(1)[0]);
                    assert(joined(nv.take(0)) =~= Seq::<char>::empty());
                }
                assert(self.out@ =~= start + joined(nv.take(i + 1)));
            }
            i = i + 1;
        }
        proof {
            assert(nv.take(nv.len() as int) =~= nv);
        }
    }

    fn blank_line(&mut self)
        ensures
            final(self).out@ == blank_line(old(self).out@),
    {
        let n = self.out.len();
        if n >= 2 && self.out[n - 2] == '\n' && self.out[n - 1] == '\n' {
        } else if n > 0 && self.out[n - 1] == '\n' {
            self.out.push('\n');
        } else {
            self.write("\n\n");
        }
    }
}


impl Formatter {
    fn expr(&mut self, e: &Expression, ind: &str)
        ensures
            final(self).out@ == old(self).out@ + fmt_expr(expr_view(*e), ind@),
        decreases e, 2int,
    {
        let ghost start = self.out@;
        let ghost ev = expr_view(*e);
        match &e.kind {
            ExpressionKind::Null => {
                self.write("null");
            },
            ExpressionKind::Boolean(b) => {
                if *b {
                    self.write("true");
                } else {
                    self.write("false");
                }
            },
            ExpressionKind::Number(v) => {
                self.write(v.as_str());
            },
            ExpressionKind::String(v) => {
                self.write("\"");
                self.escaped(v.as_str());
                self.write("\"");
                proof {
                    assert(self.out@ =~= start + fmt_expr(ev, ind@));
                }
            },
            ExpressionKind::InterpolatedString(parts) => {
                self.write("f\"");
                self.parts(parts, ind);
                self.write("\"");
                proof {
                    assert(self.out@ =~= start + fmt_expr(ev, ind@));
                }
            },
            ExpressionKind::Array(values) => {
                self.write("[");
                self.list(values, ind);
                self.write("]");
                proof {
                    assert(self.out@ =~= start + fmt_expr(ev, ind@));
                }
            },
            ExpressionKind::Object(fields) => {
                self.write("{");
                self.fields(fields, ind);
                self.write("}");
                proof {
                    assert(self.out@ =~= start + fmt_expr(ev, ind@));
                }
            },
            ExpressionKind::Variable(name) => {
                self.write(name.as_str());
            },
            ExpressionKind::Identifier(name) => {
                self.write(name.as_str());
            },
            ExpressionKind::FunctionCall { .. } | ExpressionKind::QualifiedFunctionCall { .. }
            | ExpressionKind::CoreCall { .. } => self.call(e, ind),
            ExpressionKind::MethodCall { .. } | ExpressionKind::FunctionalBlock { .. }
            | ExpressionKind::Required(_) | ExpressionKind::Subscript { .. } => self.postfix(e, ind),
            _ => self.compound(e, ind),
        }
    }

    /// Function, qualified and core calls.
    fn call(&mut self, e: &Expression, ind: &str)
        requires
            e.kind is FunctionCall || e.kind is QualifiedFunctionCall || e.kind is CoreCall,
        ensures
            final(self).out@ == old(self).out@ + fmt_expr(expr_view(*e), ind@),
        decreases e, 1int,
    {
        let ghost start = self.out@;
        let ghost ev = expr_view(*e);
        match &e.kind {
            ExpressionKind::FunctionCall { name, arguments } => {
                let t = trim_at_exec(name.as_str());
                self.write(t.as_str());
                let ghost mid = self.out@;
                if ends_at_exec(name.as_str()) {
                    self.write("@");
                } else {
                    proof {
                        assert(self.out@ =~= mid + Seq::<char>::empty());
                    }
                }
                self.write("(");
                self.list(arguments, ind);
                self.write(")");
                proof {
                    assert(self.out@ =~= start + fmt_expr(ev, ind@));
                }
            },
            ExpressionKind::QualifiedFunctionCall { module, name, arguments } => {
                self.write(module.as_str());
                self.write(".");
                self.write(name.as_str());
                self.write("(");
                self.list(arguments, ind);
                self.write(")");
                proof {
                    assert(self.out@ =~= start + fmt_expr(ev, ind@));
                }
            },
            ExpressionKind::CoreCall { name, arguments } => {
                self.write(name.as_str());
                self.write("(");
                self.list(arguments, ind);
                self.write(")");
                proof {
                    assert(self.out@ =~= start + fmt_expr(ev, ind@));
                }
            },
            _ => {},
        }
    }

    /// Method calls, functional blocks, `!` and subscripts.
    fn postfix(&mut self, e: &Expression, ind: &str)
        requires
            e.kind is MethodCall || e.kind is FunctionalBlock || e.kind is Required || e.kind is Subscript,
        ensures
            final(self).out@ == old(self).out@ + fmt_expr(expr_view(*e), ind@),
        decreases e, 1int,
    {
        let ghost start = self.out@;
        let ghost ev = expr_view(*e);
        match &e.kind {
            ExpressionKind::MethodCall { receiver, .. } => {
                if chain_reaches(e, 4) {
                    self.chain(receiver, ind);
                    let d = deeper_exec(ind);
                    self.write("\n");
                    self.write(d.as_str());
                    self.segment(e, d.as_str());
                } else {
                    self.min(receiver, 8, ind);
                    self.segment(e, ind);
                }
                proof {
                    assert(self.out@ =~= start + fmt_expr(ev, ind@));
                }
            },
            ExpressionKind::FunctionalBlock { receiver, .. } => {
                if chain_reaches(e, 4) {
                    self.chain(receiver, ind);
                    let d = deeper_exec(ind);
                    self.write("\n");
                    self.write(d.as_str());
                    self.segment(e, d.as_str());
                } else {
                    self.min(receiver, 8, ind);
                    self.segment(e, ind);
                }
                proof {
                    assert(self.out@ =~= start + fmt_expr(ev, ind@));
                }
            },
            ExpressionKind::Required(inner) => {
                if chain_reaches(e, 4) {
                    self.chain(inner, ind);
                    let d = deeper_exec(ind);
                    self.write("\n");
                    self.write(d.as_str());
                    self.segment(e, d.as_str());
                } else {
                    self.min(inner, 8, ind);
                    self.segment(e, ind);
                }
                proof {
                    assert(self.out@ =~= start + fmt_expr(ev, ind@));
                }
            },
            ExpressionKind::Subscript { receiver, .. } => {
                if chain_reaches(e, 4) {
                    self.chain(receiver, ind);
                    let d = deeper_exec(ind);
                    self.write("\n");
                    self.write(d.as_str());
                    self.segment(e, d.as_str());
                } else {
                    self.min(receiver, 8, ind);
                    self.segment(e, ind);
                }
                proof {
                    assert(self.out@ =~= start + fmt_expr(ev, ind@));
                }
            },
            _ => {},
        }
    }

    /// Lambdas, operators, conditionals and switches.
    #[verifier::rlimit(40)]
    fn compound(&mut self, e: &Expression, ind: &str)
        requires
            e.kind is Lambda || e.kind is Unary || e.kind is Binary || e.kind is IfElse
                || e.kind is BlockIf || e.kind is Switch,
        ensures
            final(self).out@ == old(self).out@ + fmt_expr(expr_view(*e), ind@),
        decreases e, 1int,
    {
        let ghost start = self.out@;
        let ghost ev = expr_view(*e);
        match &e.kind {
            ExpressionKind::Lambda { parameters, body } => {
                proof {
                    lemma_strings_len(parameters@);
                }
                if only_it(parameters) {
                    self.expr(body, ind);
                } else if parameters.len() == 1 {
                    proof {
                        lemma_strings_index(parameters@, 0);
                    }
                    self.write(parameters[0].as_str());
                    self.write(" => ");
                    self.expr(body, ind);
                    proof {
                        assert(self.out@ =~= start + fmt_expr(ev, ind@));
                    }
                } else {
                    self.write("(");
                    self.joined(parameters);
                    self.write(") => ");
                    self.expr(body, ind);
                    proof {
                        assert(self.out@ =~= start + fmt_expr(ev, ind@));
                    }
                }
            },
            ExpressionKind::Unary { operator, operand } => {
                match operator {
                    UnaryOperator::Negate => self.write("-"),
                    UnaryOperator::Not => self.write("!"),
                }
                self.min(operand, 7, ind);
                proof {
                    assert(self.out@ =~= start + fmt_expr(ev, ind@));
                }
            },
            ExpressionKind::Binary { left, operator, right } => {
                let p = binary_precedence_exec(*operator);
                self.child(left, p, false, ind);
                self.write(" ");
                self.write(binary_text_exec(*operator));
                self.write(" ");
                self.child(right, p, true, ind);
                proof {
                    assert(self.out@ =~= start + fmt_expr(ev, ind@));
                }
            },
            ExpressionKind::IfElse { condition, then_branch, else_branch } => {
                self.min(then_branch, 1, ind);
                self.write(" if ");
                self.min(condition, 1, ind);
                self.write(" else ");
                self.expr(else_branch, ind);
                proof {
                    assert(self.out@ =~= start + fmt_expr(ev, ind@));
                }
            },
            ExpressionKind::BlockIf { condition, then_branch, else_branch } => {
                self.write("if ");
                self.expr(condition, ind);
                self.write(" ");
                self.block(then_branch, ind);
                let ghost mid = self.out@;
                match else_branch {
                    Some(b) => {
                        self.write(" else ");
                        self.block(b, ind);
                    },
                    None => {
                        proof {
                            assert(self.out@ =~= mid + Seq::<char>::empty());
                        }
                    },
                }
                proof {
                    assert(self.out@ =~= start + fmt_expr(ev, ind@));
                }
            },
            ExpressionKind::Switch { target, arms } => {
                self.write("switch(");
                self.expr(target, ind);
                self.write(") {");
                if arms.len() == 0 {
                    self.write("}");
                    proof {
                        lemma_arms_len(arms@);
                    }
                } else {
                    proof {
                        lemma_arms_len(arms@);
                    }
                    self.write("\n");
                    let d = deeper_exec(ind);
                    self.arms(arms, d.as_str());
                    self.write(ind);
                    self.write("}");
                }
                proof {
                    assert(self.out@ =~= start + fmt_expr(ev, ind@));
                }
            },
            _ => {},
        }
    }

    fn min(&mut self, e: &Expression, minimum: u8, ind: &str)
        ensures
            final(self).out@ == old(self).out@ + fmt_min(expr_view(*e), minimum, ind@),
        decreases e, 3int,
    {
        let ghost start = self.out@;
        if precedence_exec(e) < minimum {
            self.write("(");
            self.expr(e, ind);
            self.write(")");
            proof {
                assert(self.out@ =~= start + fmt_min(expr_view(*e), minimum, ind@));
            }
        } else {
            self.expr(e, ind);
        }
    }

    fn child(&mut self, e: &Expression, parent: u8, is_right: bool, ind: &str)
        ensures
            final(self).out@ == old(self).out@ + fmt_child(expr_view(*e), parent, is_right, ind@),
        decreases e, 3int,
    {
        let ghost start = self.out@;
        let p = precedence_exec(e);
        if p < parent || (is_right && p == parent) {
            self.write("(");
            self.expr(e, ind);
            self.write(")");
            proof {
                assert(self.out@ =~= start + fmt_child(expr_view(*e), parent, is_right, ind@));
            }
        } else {
            self.expr(e, ind);
        }
    }

    fn chain(&mut self, x: &Expression, ind: &str)
        ensures
            final(self).out@ == old(self).out@ + fmt_chain(expr_view(*x), ind@),
        decreases x, 4int,
    {
        let ghost start = self.out@;
        let ghost xv = expr_view(*x);
        match &x.kind {
            ExpressionKind::MethodCall { receiver, .. } => {
                self.chain(receiver, ind);
                let d = deeper_exec(ind);
                self.write("\n");
                self.write(d.as_str());
                self.segment(x, d.as_str());
                proof {
                    assert(self.out@ =~= start + fmt_chain(xv, ind@));
                }
            },
            ExpressionKind::FunctionalBlock { receiver, .. } => {
                self.chain(receiver, ind);
                let d = deeper_exec(ind);
                self.write("\n");
                self.write(d.as_str());
                self.segment(x, d.as_str());
                proof {
                    assert(self.out@ =~= start + fmt_chain(xv, ind@));
                }
            },
            ExpressionKind::Required(inner) => {
                self.chain(inner, ind);
                let d = deeper_exec(ind);
                self.write("\n");
                self.write(d.as_str());
                self.segment(x, d.as_str());
                proof {
                    assert(self.out@ =~= start + fmt_chain(xv, ind@));
                }
            },
            ExpressionKind::Subscript { receiver, .. } => {
                self.chain(receiver, ind);
                let d = deeper_exec(ind);
                self.write("\n");
                self.write(d.as_str());
                self.segment(x, d.as_str());
                proof {
                    assert(self.out@ =~= start + fmt_chain(xv, ind@));
                }
            },
            _ => {
                self.min(x, 8, ind);
            },
        }
    }

    fn segment(&mut self, e: &Expression, ind: &str)
        ensures
            final(self).out@ == old(self).out@ + fmt_segment(expr_view(*e), ind@),
        decreases e, 0int,
    {
        let ghost start = self.out@;
        let ghost ev = expr_view(*e);
        match &e.kind {
            ExpressionKind::MethodCall { name, multiple, arguments, .. } => {
                self.write(".");
                self.write(name.as_str());
                let ghost mid = self.out@;
                if *multiple {
                    self.write("@");
                } else {
                    proof {
                        assert(self.out@ =~= mid + Seq::<char>::empty());
                    }
                }
                self.write("(");
                self.list(arguments, ind);
                self.write(")");
                proof {
                    assert(self.out@ =~= start + fmt_segment(ev, ind@));
                }
            },
            ExpressionKind::FunctionalBlock { method, body, .. } => {
                self.write(".");
                self.write(method.as_str());
                self.write(" ");
                self.block(body, ind);
                proof {
                    assert(self.out@ =~= start + fmt_segment(ev, ind@));
                }
            },
            ExpressionKind::Required(_) => {
                self.write("!");
            },
            ExpressionKind::Subscript { index, .. } => {
                match &index.kind {
                    ExpressionKind::String(name) => {
                        proof {
                            assert(expr_view(**index).kind == ExprKindV::Str(name@));
                        }
                        if dot_key_exec(name.as_str()) {
                            self.write(".");
                            self.write(name.as_str());
                        } else {
                            self.write("[");
                            self.expr(index, ind);
                            self.write("]");
                        }
                    },
                    _ => {
                        proof {
                            assert(!(expr_view(**index).kind is Str));
                        }
                        self.write("[");
                        self.expr(index, ind);
                        self.write("]");
                    },
                }
                proof {
                    assert(self.out@ =~= start + fmt_segment(ev, ind@));
                }
            },
            _ => {
                proof {
                    assert(self.out@ =~= start + Seq::<char>::empty());
                }
            },
        }
    }

    fn list(&mut self, es: &Vec<Expression>, ind: &str)
        ensures
            final(self).out@ == old(self).out@ + fmt_list(exprs_view(es@), ind@, 0),
        decreases es, 0int,
    {
        let ghost ev = exprs_view(es@);
        let ghost start = self.out@;
        proof {
            lemma_exprs_len(es@);
        }
        let mut i: usize = 0;
        while i < es.len()
            invariant
                ev == exprs_view(es@),
                ev.len() == es@.len(),
                i <= es@.len(),
                start + fmt_list(ev, ind@, 0) == self.out@ + fmt_list(ev, ind@, i as int),
            decreases es@.len() - i,
        {
            proof {
                lemma_exprs_index(es@, i as int);
                assert(decreases_to!(es => es@));
                assert(decreases_to!(es@ => es@[i as int]));
            }
            let ghost before = self.out@;
            if i > 0 {
                self.write(", ");
            }
            self.expr(&es[i], ind);
            proof {
                assert(before + fmt_list(ev, ind@, i as int) =~= self.out@ + fmt_list(ev, ind@, i + 1));
            }
            i = i + 1;
        }
        proof {
            assert(self.out@ =~= self.out@ + fmt_list(ev, ind@, i as int));
        }
    }

    fn fields(&mut self, fields: &Vec<ObjectField>, ind: &str)
        ensures
            final(self).out@ == old(self).out@ + fmt_fields(fields_view(fields@), ind@, 0),
        decreases fields, 0int,
    {
        let ghost fv = fields_view(fields@);
        let ghost start = self.out@;
        proof {
            lemma_fields_len(fields@);
        }
        let mut i: usize = 0;
        while i < fields.len()
            invariant
                fv == fields_view(fields@),
                fv.len() == fields@.len(),
                i <= fields@.len(),
                start + fmt_fields(fv, ind@, 0) == self.out@ + fmt_fields(fv, ind@, i as int),
            decreases fields@.len() - i,
        {
            proof {
                lemma_fields_index(fields@, i as int);
                assert(decreases_to!(fields => fields@));
                assert(decreases_to!(fields@ => fields@[i as int]));
            }
            let ghost before = self.out@;
            if i > 0 {
                self.write(", ");
            }
            self.write(fields[i].name.as_str());
            self.write(": ");
            self.expr(&fields[i].value, ind);
            proof {
                assert(before + fmt_fields(fv, ind@, i as int) =~= self.out@ + fmt_fields(fv, ind@, i + 1));
            }
            i = i + 1;
        }
        proof {
            assert(self.out@ =~= self.out@ + fmt_fields(fv, ind@, i as int));
        }
    }

    fn parts(&mut self, parts: &Vec<InterpolatedStringPart>, ind: &str)
        ensures
            final(self).out@ == old(self).out@ + fmt_parts(iparts_view(parts@), ind@, 0),
        decreases parts, 0int,
    {
        let ghost pv = iparts_view(parts@);
        let ghost start = self.out@;
        proof {
            lemma_iparts_len(parts@);
        }
        let mut i: usize = 0;
        while i < parts.len()
            invariant
                pv == iparts_view(parts@),
                pv.len() == parts@.len(),
                i <= parts@.len(),
                start + fmt_parts(pv, ind@, 0) == self.out@ + fmt_parts(pv, ind@, i as int),
            decreases parts@.len() - i,
        {
            proof {
                lemma_iparts_index(parts@, i as int);
                assert(decreases_to!(parts => parts@));
                assert(decreases_to!(parts@ => parts@[i as int]));
            }
            let ghost before = self.out@;
            match &parts[i] {
                InterpolatedStringPart::Literal(v) => {
                    self.escaped_interp(v.as_str());
                },
                InterpolatedStringPart::Expression(x) => {
                    self.write("{");
                    self.expr(x, ind);
                    self.write("}");
                },
            }
            proof {
                assert(before + fmt_parts(pv, ind@, i as int) =~= self.out@ + fmt_parts(pv, ind@, i + 1));
            }
            i = i + 1;
        }
        proof {
            assert(self.out@ =~= self.out@ + fmt_parts(pv, ind@, i as int));
        }
    }

    fn arms(&mut self, arms: &Vec<SwitchArm>, ind: &str)
        ensures
            final(self).out@ == old(self).out@ + fmt_arms(arms_view(arms@), ind@, 0),
        decreases arms, 0int,
    {
        let ghost av = arms_view(arms@);
        let ghost start = self.out@;
        proof {
            lemma_arms_len(arms@);
        }
        let mut i: usize = 0;
        while i < arms.len()
            invariant
                av == arms_view(arms@),
                av.len() == arms@.len(),
                i <= arms@.len(),
                start + fmt_arms(av, ind@, 0) == self.out@ + fmt_arms(av, ind@, i as int),
            decreases arms@.len() - i,
        {
            proof {
                lemma_arms_index(arms@, i as int);
                assert(decreases_to!(arms => arms@));
                assert(decreases_to!(arms@ => arms@[i as int]));
            }
            let ghost before = self.out@;
            let arm = &arms[i];
            self.write(ind);
            match &arm.pattern {
                SwitchPattern::Value(v) => self.expr(v, ind),
                SwitchPattern::Wildcard => self.write("_"),
                SwitchPattern::Binding(name) => self.write(name.as_str()),
            }
            self.write(" => ");
            self.expr(&arm.value, ind);
            let ghost mid = self.out@;
            if i + 1 < arms.len() {
                self.write(",");
            } else {
                proof {
                    assert(self.out@ =~= mid + Seq::<char>::empty());
                }
            }
            self.write("\n");
            proof {
                assert(before + fmt_arms(av, ind@, i as int) =~= self.out@ + fmt_arms(av, ind@, i + 1));
            }
            i = i + 1;
        }
        proof {
            assert(self.out@ =~= self.out@ + fmt_arms(av, ind@, i as int));
        }
    }

    #[verifier::rlimit(40)]
    fn stmt(&mut self, s: &Statement, ind: &str)
        ensures
            final(self).out@ == old(self).out@ + fmt_stmt(stmt_view(*s), ind@),
        decreases s, 0int,
    {
        let ghost start = self.out@;
        let ghost sv = stmt_view(*s);
        self.write(ind);
        match &s.kind {
            StatementKind::Assignment { name, operator, visibility, value } => {
                let ghost mid = self.out@;
                if needs_private_prefix(*visibility, name.as_str()) {
                    self.write("_");
                } else {
                    proof {
                        assert(self.out@ =~= mid + Seq::<char>::empty());
                    }
                }
                self.write(name.as_str());
                self.write(assignment_text_exec(*operator));
                self.expr(value, ind);
                self.write("\n");
            },
            StatementKind::ComputedAssignment { name, value } => {
                self.write("[");
                self.expr(name, ind);
                self.write("] = ");
                self.expr(value, ind);
                self.write("\n");
            },
            StatementKind::Return(value) => {
                self.write("return ");
                self.expr(value, ind);
                self.write("\n");
            },
            StatementKind::While { condition, body } => {
                self.write("while ");
                self.expr(condition, ind);
                self.write(" ");
                self.block(body, ind);
                self.write("\n");
            },
            StatementKind::Loop { body } => {
                self.write("loop ");
                self.block(body, ind);
                self.write("\n");
            },
            StatementKind::Break => {
                self.write("break\n");
            },
            StatementKind::Expression(x) => {
                self.expr(x, ind);
                self.write("\n");
            },
        }
        proof {
            assert(self.out@ =~= start + fmt_stmt(sv, ind@));
        }
    }

    fn stmts(&mut self, ss: &Vec<Statement>, ind: &str)
        ensures
            final(self).out@ == old(self).out@ + fmt_stmts(stmts_view(ss@), ind@, 0),
        decreases ss, 0int,
    {
        let ghost sv = stmts_view(ss@);
        let ghost start = self.out@;
        proof {
            lemma_stmts_len(ss@);
        }
        let mut i: usize = 0;
        while i < ss.len()
            invariant
                sv == stmts_view(ss@),
                sv.len() == ss@.len(),
                i <= ss@.len(),
                start + fmt_stmts(sv, ind@, 0) == self.out@ + fmt_stmts(sv, ind@, i as int),
            decreases ss@.len() - i,
        {
            proof {
                lemma_stmts_index(ss@, i as int);
                assert(decreases_to!(ss => ss@));
                assert(decreases_to!(ss@ => ss@[i as int]));
            }
            let ghost before = self.out@;
            self.stmt(&ss[i], ind);
            proof {
                assert(before + fmt_stmts(sv, ind@, i as int) =~= self.out@ + fmt_stmts(sv, ind@, i + 1));
            }
            i = i + 1;
        }
        proof {
            assert(self.out@ =~= self.out@ + fmt_stmts(sv, ind@, i as int));
        }
    }

    fn block(&mut self, ss: &Vec<Statement>, ind: &str)
        ensures
            final(self).out@ == old(self).out@ + fmt_block(stmts_view(ss@), ind@),
        decreases ss, 1int,
    {
        let ghost start = self.out@;
        proof {
            lemma_stmts_len(ss@);
        }
        if ss.len() == 0 {
            self.write("{}");
        } else {
            self.write("{\n");
            let d = deeper_exec(ind);
            self.stmts(ss, d.as_str());
            self.write(ind);
            self.write("}");
            proof {
                assert(self.out@ =~= start + fmt_block(stmts_view(ss@), ind@));
            }
        }
    }
}


impl Formatter {
    fn function(&mut self, f: &FunctionDefinition)
        ensures
            final(self).out@ == old(self).out@ + fmt_function(function_view(*f)),
    {
        let ghost start = self.out@;
        self.write("fun ");
        self.write(f.name.as_str());
        self.write("(");
        self.joined(&f.parameters);
        self.write(") ");
        let top = String::new();
        self.block(&f.body, top.as_str());
        proof {
            assert(self.out@ =~= start + fmt_function(function_view(*f)));
        }
    }

    fn inputs(&mut self, inputs: &Vec<TestInput>)
        ensures
            final(self).out@ == old(self).out@ + fmt_inputs(test_inputs_view(inputs@), 0),
    {
        let ghost iv = test_inputs_view(inputs@);
        let ghost start = self.out@;
        proof {
            lemma_test_inputs_len(inputs@);
        }
        let top = String::new();
        let mut i: usize = 0;
        while i < inputs.len()
            invariant
                iv == test_inputs_view(inputs@),
                iv.len() == inputs@.len(),
                i <= inputs@.len(),
                top@ == Seq::<char>::empty(),
                start + fmt_inputs(iv, 0) == self.out@ + fmt_inputs(iv, i as int),
            decreases inputs@.len() - i,
        {
            proof {
                lemma_test_inputs_index(inputs@, i as int);
            }
            let ghost before = self.out@;
            if i > 0 {
                self.write(", ");
            }
            self.write(inputs[i].name.as_str());
            self.write(" = ");
            self.expr(&inputs[i].value, top.as_str());
            proof {
                assert(before + fmt_inputs(iv, i as int) =~= self.out@ + fmt_inputs(iv, i + 1));
            }
            i = i + 1;
        }
        proof {
            assert(self.out@ =~= self.out@ + fmt_inputs(iv, i as int));
        }
    }

    fn test(&mut self, t: &TestBlock)
        ensures
            final(self).out@ == old(self).out@ + fmt_test(test_view(*t)),
    {
        let ghost start = self.out@;
        self.write("test");
        let ghost mid = self.out@;
        if t.runs_script {
            self.write("(");
            self.inputs(&t.inputs);
            self.write(")");
        } else {
            proof {
                assert(self.out@ =~= mid + Seq::<char>::empty());
            }
        }
        self.write(" ");
        let top = String::new();
        self.block(&t.body, top.as_str());
        proof {
            assert(self.out@ =~= start + fmt_test(test_view(*t)));
        }
    }
}

/// The canonical text of a resolved program.
fn format_program(p: &Program) -> (r: String)
    ensures
        r@ == fmt_program(program_view(*p)),
{
    let ghost pv = program_view(*p);
    let mut f = Formatter { out: Vec::new() };
    let ghost fv = functions_view(p.functions@);
    let ghost tv = tests_view(p.tests@);
    proof {
        lemma_functions_len(p.functions@);
        lemma_tests_len(p.tests@);
        lemma_stmts_len(p.statements@);
        assert(f.out@ =~= Seq::<char>::empty());
    }
    let mut i: usize = 0;
    while i < p.functions.len()
        invariant
            fv == functions_view(p.functions@),
            fv.len() == p.functions@.len(),
            i <= p.functions@.len(),
            fmt_functions(Seq::<char>::empty(), fv, 0) == fmt_functions(f.out@, fv, i as int),
        decreases p.functions@.len() - i,
    {
        proof {
            lemma_functions_index(p.functions@, i as int);
        }
        if i > 0 {
            f.blank_line();
        }
        f.function(&p.functions[i]);
        i = i + 1;
    }
    if p.statements.len() > 0 && p.functions.len() > 0 {
        f.blank_line();
    }
    let top = String::new();
    f.stmts(&p.statements, top.as_str());
    if p.statements.len() > 0 && p.tests.len() > 0 {
        f.blank_line();
    }
    let first_blank = p.statements.len() == 0 && p.functions.len() > 0;
    let ghost d = f.out@;
    let mut j: usize = 0;
    while j < p.tests.len()
        invariant
            tv == tests_view(p.tests@),
            tv.len() == p.tests@.len(),
            j <= p.tests@.len(),
            fmt_tests(d, tv, first_blank, 0) == fmt_tests(f.out@, tv, first_blank, j as int),
        decreases p.tests@.len() - j,
    {
        proof {
            lemma_tests_index(p.tests@, j as int);
        }
        if j > 0 || first_blank {
            f.blank_line();
        }
        f.test(&p.tests[j]);
        j = j + 1;
    }
    let n = f.out.len();
    if !(n > 0 && f.out[n - 1] == '\n') {
        f.out.push('\n');
    }
    string_from_range(&f.out, 0, f.out.len())
}

/// Formats extractor source: compiles it, then prints the resolved program
/// in canonical form (see `fmt_program`).
pub fn format(source: &str) -> (r: Result<String, CompileError>)
    ensures
        match spec_compile(source@) {
            Ok((p, _)) => r matches Ok(text) && text@ == fmt_program(p),
            Err(ds) => r matches Err(e) && e@ == ds,
        },
{
    match compile(source) {
        Ok(compiled) => Ok(format_program(compiled.program())),
        Err(e) => Err(e),
    }
}


// ---------------------------------------------------------------------------
// Laws
// ---------------------------------------------------------------------------

/// Formatted text always ends with a line break.
pub proof fn law_format_ends_with_newline(p: ProgramV)
    ensures
        ends_with_newline(fmt_program(p)),
{
}

/// A private assignment prints with exactly one leading `_`: the name's own
/// when it has one, else an added one.
pub proof fn law_private_assignment_prefix(s: StmtV, ind: Seq<char>)
    requires
        s.kind matches StmtKindV::Assignment { visibility, .. } && visibility == Visibility::Private,
    ensures
        fmt_stmt(s, ind)[ind.len() as int] == '_',
        ({
            let name = s.kind->Assignment_name;
            name.len() > 0 && name[0] == '_' ==> fmt_stmt(s, ind).subrange(ind.len() as int, (ind.len() + name.len()) as int) == name
        }),
{
    reveal_strlit("_");
    if let StmtKindV::Assignment { name, operator, visibility, value } = s.kind {
        let rest = private_prefix(visibility, name) + name + assignment_text(operator) + fmt_expr(value, ind) + "\n"@;
        assert(fmt_stmt(s, ind) == ind + rest);
        assert(fmt_stmt(s, ind)[ind.len() as int] == rest[0]);
        if name.len() > 0 && name[0] == '_' {
            assert(private_prefix(visibility, name) =~= Seq::<char>::empty());
            assert(fmt_stmt(s, ind).subrange(ind.len() as int, (ind.len() + name.len()) as int) =~= name);
        }
    }
}

/// The text an assignment's operator is written with reads back as that
/// operator: it lexes to one operator token (and the end of input), and the
/// parser takes that token for the same assignment operator. So `count -= 1`
/// is written with `-=`, never `+=` or `=`.
pub proof fn law_assignment_operators_read_back(op: AssignmentOperator)
    ensures
        crate::lexer::spec_lex(assignment_text(op)) matches Ok(ts)
            && ts.len() == 2
            && crate::parser::assignment_operator(ts[0].kind) == Some(op)
            && ts[1].kind is Eof,
{
    reveal_with_fuel(crate::lexer::lex_from, 5);
    reveal_strlit(" = ");
    reveal_strlit(" += ");
    reveal_strlit(" -= ");
    let s = assignment_text(op);
    let e = s.len() as int;
    assert(crate::text::unicode_whitespace(' '));
    assert(!crate::text::unicode_whitespace('='));
    assert(!crate::text::unicode_whitespace('+'));
    assert(!crate::text::unicode_whitespace('-'));
    assert(!crate::lexer::is_ident_start('=')) by {
        reveal_strlit("=");
    }
    assert(!crate::lexer::is_ident_start('+'));
    assert(!crate::lexer::is_ident_start('-'));
    assert(crate::lexer::scan(s, e, 0) == crate::lexer::Scan::Skip(1));
    assert(crate::lexer::scan(s, e, e - 1) == crate::lexer::Scan::Skip(e));
}

/// The text a binary operator is written with reads back as that operator,
/// and the formatter's precedence for it is the parser's: it lexes to one
/// operator token (and the end of input) that the parser takes for the same
/// operator with the same binding power. So the formatter parenthesizes
/// exactly where the parser groups.
pub proof fn law_binary_operators_read_back(op: BinaryOperator)
    ensures
        crate::lexer::spec_lex(binary_text(op)) matches Ok(ts)
            && ts.len() == 2
            && crate::parser::binary_operator(ts[0].kind) == Some((op, binary_precedence(op)))
            && ts[1].kind is Eof,
{
    reveal_with_fuel(crate::lexer::lex_from, 4);
    reveal_strlit("||");
    reveal_strlit("&&");
    reveal_strlit("==");
    reveal_strlit("!=");
    reveal_strlit("<");
    reveal_strlit("<=");
    reveal_strlit(">");
    reveal_strlit(">=");
    reveal_strlit("+");
    reveal_strlit("-");
    reveal_strlit("*");
    reveal_strlit("/");
    reveal_strlit("%");
    let s = binary_text(op);
    assert(s.len() >= 1);
    assert(!crate::text::unicode_whitespace(s[0]));
    assert(!crate::lexer::is_ident_start(s[0]));
    assert(!crate::text::is_digit(s[0]));
}

} // verus!
