//! Rewrites a parsed program for the runtime: calls of core built-ins
//! become core calls, method calls on unbound names become qualified host
//! function calls, and a non-lambda argument of `map`, `filter`, `any`,
//! `all`, `find` and `sort_by_key` becomes a lambda of `it`.

use vstd::prelude::*;
use crate::ast::{
    Expression, ExpressionKind, InterpolatedStringPart, ObjectField, Statement, StatementKind,
    SwitchArm, SwitchPattern, ExprV, ExprKindV, IPartV, FieldV, ArmV, PatternV, StmtV, StmtKindV,
    expr_view, exprs_view, iparts_view, fields_view, arms_view, stmt_view, stmts_view, strings_view,
    lemma_exprs_push, lemma_exprs_index, lemma_exprs_len, lemma_iparts_push, lemma_iparts_index,
    lemma_iparts_len, lemma_fields_push, lemma_fields_index, lemma_fields_len, lemma_arms_push,
    lemma_arms_index, lemma_arms_len, lemma_stmts_push, lemma_stmts_index, lemma_stmts_len,
    lemma_strings_push,
};
use crate::functions::{BuiltinFunctionKind, builtin_function, builtin_kind};
use crate::text::str_eq;

verus! {

// ---------------------------------------------------------------------------
// Name sets
// ---------------------------------------------------------------------------

/// The names held by a vector of strings.
pub open spec fn name_set(v: Seq<String>) -> Set<Seq<char>> {
    Set::new(|x: Seq<char>| exists|i: int| 0 <= i < v.len() && v[i]@ == x)
}

pub proof fn lemma_name_set_push(v: Seq<String>, s: String)
    ensures
        name_set(v.push(s)) == name_set(v).insert(s@),
{
    let w = v.push(s);
    assert forall|x: Seq<char>| name_set(w).contains(x) <==> name_set(v).insert(s@).contains(x) by {
        if name_set(w).contains(x) {
            let j = choose|j: int| 0 <= j < w.len() && w[j]@ == x;
            if j < v.len() {
                assert(v[j]@ == x);
            }
        }
        if name_set(v).contains(x) {
            let j = choose|j: int| 0 <= j < v.len() && v[j]@ == x;
            assert(w[j]@ == x);
        }
        if x == s@ {
            assert(w[v.len() as int]@ == x);
        }
    }
    assert(name_set(w) =~= name_set(v).insert(s@));
}

/// Whether `v` holds the name `s`.
pub fn contains_name(v: &Vec<String>, s: &str) -> (r: bool)
    ensures
        r == name_set(v@).contains(s@),
{
    let mut i: usize = 0;
    while i < v.len()
        invariant
            i <= v@.len(),
            forall|j: int| 0 <= j < i ==> v@[j]@ != s@,
        decreases v@.len() - i,
    {
        if str_eq(v[i].as_str(), s) {
            assert(v@[i as int]@ == s@);
            return true;
        }
        i = i + 1;
    }
    false
}

/// Adds the name `s` to `v`.
pub fn add_name(v: &mut Vec<String>, s: &str)
    ensures
        name_set(final(v)@) == name_set(old(v)@).insert(s@),
{
    let owned = s.to_owned();
    proof {
        lemma_name_set_push(v@, owned);
    }
    v.push(owned);
}

/// A copy of the names.
pub fn copy_names(v: &Vec<String>) -> (r: Vec<String>)
    ensures
        name_set(r@) == name_set(v@),
{
    let mut r: Vec<String> = Vec::new();
    let mut i: usize = 0;
    while i < v.len()
        invariant
            i <= v@.len(),
            name_set(r@) == name_set(v@.take(i as int)),
        decreases v@.len() - i,
    {
        let s = v[i].clone();
        proof {
            lemma_name_set_push(r@, s);
            lemma_name_set_push(v@.take(i as int), v@[i as int]);
            assert(v@.take(i + 1) =~= v@.take(i as int).push(v@[i as int]));
        }
        r.push(s);
        i = i + 1;
    }
    proof {
        assert(v@.take(v@.len() as int) =~= v@);
    }
    r
}

// ---------------------------------------------------------------------------
// The rewriting, as spec functions
// ---------------------------------------------------------------------------

/// The built-ins whose first value argument may be written without `it =>`.
pub open spec fn uses_single_it_lambda(name: Seq<char>) -> bool {
    name == "map"@ || name == "filter"@ || name == "any"@ || name == "all"@ || name == "find"@
        || name == "sort_by_key"@
}

/// `body` as the body of a lambda of `it`, with the body's span.
pub open spec fn it_lambda(body: ExprV) -> ExprV {
    ExprV { kind: ExprKindV::Lambda { parameters: seq!["it"@], body: Box::new(body) }, span: body.span }
}

/// Whether argument `i` of a call of `name` gets wrapped in a lambda: it is
/// the argument at `idx` and is not a lambda already.
pub open spec fn wraps(name: Seq<char>, args: Seq<ExprV>, idx: int, i: int) -> bool {
    i == idx && uses_single_it_lambda(name) && !(args[i].kind is Lambda)
}

pub open spec fn r_expr(e: ExprV, b: Set<Seq<char>>) -> ExprV
    decreases e, 0int,
{
    let kind = match e.kind {
        ExprKindV::FunctionCall { name, arguments } => if builtin_kind(name) == Some(BuiltinFunctionKind::Core) {
            ExprKindV::CoreCall { name, arguments: r_args(arguments, b, name, -1, 0) }
        } else {
            ExprKindV::FunctionCall { name, arguments: r_args(arguments, b, name, 1, 0) }
        },
        ExprKindV::MethodCall { receiver, name, multiple, arguments } => {
            if receiver.kind is Variable && !b.contains(receiver.kind->Variable_0) && builtin_kind(name) is None {
                ExprKindV::QualifiedFunctionCall {
                    module: receiver.kind->Variable_0,
                    name,
                    arguments: r_args(arguments, b, name, -1, 0),
                }
            } else {
                ExprKindV::MethodCall {
                    receiver: Box::new(r_expr(*receiver, b)),
                    name,
                    multiple,
                    arguments: r_args(arguments, b, name, 0, 0),
                }
            }
        },
        ExprKindV::QualifiedFunctionCall { module, name, arguments } => ExprKindV::QualifiedFunctionCall {
            module,
            name,
            arguments: r_args(arguments, b, name, -1, 0),
        },
        ExprKindV::CoreCall { name, arguments } => ExprKindV::CoreCall { name, arguments: r_args(arguments, b, name, -1, 0) },
        ExprKindV::InterpolatedString(parts) => ExprKindV::InterpolatedString(r_parts(parts, b, 0)),
        ExprKindV::Array(values) => ExprKindV::Array(r_args(values, b, ""@, -1, 0)),
        ExprKindV::Object(fields) => ExprKindV::Object(r_fields(fields, b, 0)),
        ExprKindV::Lambda { parameters, body } => ExprKindV::Lambda { parameters, body: Box::new(r_expr(*body, b)) },
        ExprKindV::Required(inner) => ExprKindV::Required(Box::new(r_expr(*inner, b))),
        ExprKindV::Unary { operator, operand } => ExprKindV::Unary { operator, operand: Box::new(r_expr(*operand, b)) },
        ExprKindV::FunctionalBlock { receiver, method, body } => ExprKindV::FunctionalBlock {
            receiver: Box::new(r_expr(*receiver, b)),
            method,
            body: r_stmts(body, b, 0).0,
        },
        ExprKindV::Binary { left, operator, right } => ExprKindV::Binary {
            left: Box::new(r_expr(*left, b)),
            operator,
            right: Box::new(r_expr(*right, b)),
        },
        ExprKindV::IfElse { condition, then_branch, else_branch } => ExprKindV::IfElse {
            condition: Box::new(r_expr(*condition, b)),
            then_branch: Box::new(r_expr(*then_branch, b)),
            else_branch: Box::new(r_expr(*else_branch, b)),
        },
        ExprKindV::BlockIf { condition, then_branch, else_branch } => ExprKindV::BlockIf {
            condition: Box::new(r_expr(*condition, b)),
            then_branch: r_stmts(then_branch, b, 0).0,
            else_branch: match else_branch {
                Some(s) => Some(r_stmts(s, b, 0).0),
                None => None,
            },
        },
        ExprKindV::Switch { target, arms } => ExprKindV::Switch {
            target: Box::new(r_expr(*target, b)),
            arms: r_arms(arms, b, 0),
        },
        ExprKindV::Subscript { receiver, index } => ExprKindV::Subscript {
            receiver: Box::new(r_expr(*receiver, b)),
            index: Box::new(r_expr(*index, b)),
        },
        other => other,
    };
    ExprV { kind, span: e.span }
}

/// Arguments from `i` on, each rewritten; the one at `idx` of a call of
/// `name` wrapped in a lambda of `it` when `wraps` says so.
pub open spec fn r_args(args: Seq<ExprV>, b: Set<Seq<char>>, name: Seq<char>, idx: int, i: int) -> Seq<ExprV>
    decreases args, args.len() - i,
{
    if i < 0 || i >= args.len() {
        seq![]
    } else {
        let a = if wraps(name, args, idx, i) {
            it_lambda(r_expr(args[i], b))
        } else {
            r_expr(args[i], b)
        };
        seq![a] + r_args(args, b, name, idx, i + 1)
    }
}

pub open spec fn r_parts(parts: Seq<IPartV>, b: Set<Seq<char>>, i: int) -> Seq<IPartV>
    decreases parts, parts.len() - i,
{
    if i < 0 || i >= parts.len() {
        seq![]
    } else {
        let p = match parts[i] {
            IPartV::Expression(e) => IPartV::Expression(r_expr(e, b)),
            IPartV::Literal(v) => IPartV::Literal(v),
        };
        seq![p] + r_parts(parts, b, i + 1)
    }
}

pub open spec fn r_fields(fields: Seq<FieldV>, b: Set<Seq<char>>, i: int) -> Seq<FieldV>
    decreases fields, fields.len() - i,
{
    if i < 0 || i >= fields.len() {
        seq![]
    } else {
        seq![FieldV { value: r_expr(fields[i].value, b), ..fields[i] }] + r_fields(fields, b, i + 1)
    }
}

pub open spec fn r_arms(arms: Seq<ArmV>, b: Set<Seq<char>>, i: int) -> Seq<ArmV>
    decreases arms, arms.len() - i,
{
    if i < 0 || i >= arms.len() {
        seq![]
    } else {
        let pattern = match arms[i].pattern {
            PatternV::Value(p) => PatternV::Value(r_expr(p, b)),
            other => other,
        };
        seq![ArmV { pattern, value: r_expr(arms[i].value, b), span: arms[i].span }] + r_arms(arms, b, i + 1)
    }
}

/// A statement rewritten, and the names bound after it.
pub open spec fn r_stmt(s: StmtV, b: Set<Seq<char>>) -> (StmtV, Set<Seq<char>>)
    decreases s, 0int,
{
    match s.kind {
        StmtKindV::Assignment { name, operator, visibility, value } => (
            StmtV { kind: StmtKindV::Assignment { name, operator, visibility, value: r_expr(value, b) }, span: s.span },
            b.insert(name),
        ),
        StmtKindV::ComputedAssignment { name, value } => (
            StmtV { kind: StmtKindV::ComputedAssignment { name: r_expr(name, b), value: r_expr(value, b) }, span: s.span },
            b,
        ),
        StmtKindV::Return(value) => (StmtV { kind: StmtKindV::Return(r_expr(value, b)), span: s.span }, b),
        StmtKindV::While { condition, body } => {
            let c = r_expr(condition, b);
            let r = r_stmts(body, b, 0);
            (StmtV { kind: StmtKindV::While { condition: c, body: r.0 }, span: s.span }, r.1)
        },
        StmtKindV::Loop { body } => {
            let r = r_stmts(body, b, 0);
            (StmtV { kind: StmtKindV::Loop { body: r.0 }, span: s.span }, r.1)
        },
        StmtKindV::Break => (s, b),
        StmtKindV::Expression(e) => (StmtV { kind: StmtKindV::Expression(r_expr(e, b)), span: s.span }, b),
    }
}

/// Statements from `i` on rewritten in order, each seeing the names bound
/// before it, and the names bound after the last.
pub open spec fn r_stmts(stmts: Seq<StmtV>, b: Set<Seq<char>>, i: int) -> (Seq<StmtV>, Set<Seq<char>>)
    decreases stmts, stmts.len() - i,
{
    if i < 0 || i >= stmts.len() {
        (seq![], b)
    } else {
        let first = r_stmt(stmts[i], b);
        let rest = r_stmts(stmts, first.1, i + 1);
        (seq![first.0] + rest.0, rest.1)
    }
}

// ---------------------------------------------------------------------------
// The rewriting, executable
// ---------------------------------------------------------------------------

fn uses_single_it_lambda_exec(name: &str) -> (r: bool)
    ensures
        r == uses_single_it_lambda(name@),
{
    str_eq(name, "map") || str_eq(name, "filter") || str_eq(name, "any") || str_eq(name, "all")
        || str_eq(name, "find") || str_eq(name, "sort_by_key")
}

fn is_core_builtin(name: &str) -> (r: bool)
    ensures
        r == (builtin_kind(name@) == Some(BuiltinFunctionKind::Core)),
{
    match builtin_function(name) {
        Some(f) => f.kind() == BuiltinFunctionKind::Core,
        None => false,
    }
}

fn is_builtin(name: &str) -> (r: bool)
    ensures
        r == builtin_kind(name@) is Some,
{
    builtin_function(name).is_some()
}

fn is_lambda(e: &Expression) -> (r: bool)
    ensures
        r == (expr_view(*e).kind is Lambda),
{
    match &e.kind {
        ExpressionKind::Lambda { .. } => true,
        _ => false,
    }
}

fn resolve_args(args: &Vec<Expression>, b: &Vec<String>, name: &str, idx: usize, wrap: bool) -> (r: Vec<Expression>)
    ensures
        exprs_view(r@) == r_args(exprs_view(args@), name_set(b@), name@, if wrap { idx as int } else { -1 }, 0),
    decreases args,
{
    let ghost av = exprs_view(args@);
    let ghost bs = name_set(b@);
    let ghost ix: int = if wrap { idx as int } else { -1 };
    proof {
        lemma_exprs_len(args@);
    }
    let mut out: Vec<Expression> = Vec::new();
    let mut i: usize = 0;
    while i < args.len()
        invariant
            av == exprs_view(args@),
            av.len() == args@.len(),
            bs == name_set(b@),
            ix == (if wrap { idx as int } else { -1 }),
            i <= args@.len(),
            r_args(av, bs, name@, ix, 0) == exprs_view(out@) + r_args(av, bs, name@, ix, i as int),
        decreases args@.len() - i,
    {
        proof {
            lemma_exprs_index(args@, i as int);
            assert(decreases_to!(args => args@));
            assert(decreases_to!(args@ => args@[i as int]));
        }
        let a = &args[i];
        let r = resolve_expr(a, b);
        let w = wrap && i == idx && uses_single_it_lambda_exec(name) && !is_lambda(a);
        let item = if w {
            let span = r.span;
            let mut parameters: Vec<String> = Vec::new();
            let it_name = "it".to_owned();
            proof {
                lemma_strings_push(parameters@, it_name);
                assert(strings_view(parameters@) =~= seq![]);
                assert(strings_view(parameters@).push(it_name@) =~= seq!["it"@]);
            }
            parameters.push(it_name);
            let item = Expression { kind: ExpressionKind::Lambda { parameters, body: Box::new(r) }, span };
            item
        } else {
            r
        };
        proof {
            lemma_exprs_push(out@, item);
            assert(exprs_view(out@.push(item)) + r_args(av, bs, name@, ix, i + 1) =~= exprs_view(out@) + (seq![
                expr_view(item),
            ] + r_args(av, bs, name@, ix, i + 1)));
        }
        out.push(item);
        i = i + 1;
    }
    proof {
        assert(exprs_view(out@) + r_args(av, bs, name@, ix, i as int) =~= exprs_view(out@));
    }
    out
}

fn resolve_expr(e: &Expression, b: &Vec<String>) -> (r: Expression)
    ensures
        expr_view(r) == r_expr(expr_view(*e), name_set(b@)),
    decreases e,
{
    let kind = match &e.kind {
        ExpressionKind::FunctionCall { name, arguments } => {
            if is_core_builtin(name.as_str()) {
                ExpressionKind::CoreCall { name: name.clone(), arguments: resolve_args(arguments, b, name.as_str(), 0, false) }
            } else {
                ExpressionKind::FunctionCall { name: name.clone(), arguments: resolve_args(arguments, b, name.as_str(), 1, true) }
            }
        },
        ExpressionKind::MethodCall { receiver, name, multiple, arguments } => {
            let qualified = match &receiver.kind {
                ExpressionKind::Variable(module) => !contains_name(b, module.as_str()) && !is_builtin(name.as_str()),
                _ => false,
            };
            if qualified {
                let module = match &receiver.kind {
                    ExpressionKind::Variable(module) => module.clone(),
                    _ => String::new(),
                };
                ExpressionKind::QualifiedFunctionCall {
                    module,
                    name: name.clone(),
                    arguments: resolve_args(arguments, b, name.as_str(), 0, false),
                }
            } else {
                ExpressionKind::MethodCall {
                    receiver: Box::new(resolve_expr(receiver, b)),
                    name: name.clone(),
                    multiple: *multiple,
                    arguments: resolve_args(arguments, b, name.as_str(), 0, true),
                }
            }
        },
        ExpressionKind::QualifiedFunctionCall { module, name, arguments } => ExpressionKind::QualifiedFunctionCall {
            module: module.clone(),
            name: name.clone(),
            arguments: resolve_args(arguments, b, name.as_str(), 0, false),
        },
        ExpressionKind::CoreCall { name, arguments } => ExpressionKind::CoreCall {
            name: name.clone(),
            arguments: resolve_args(arguments, b, name.as_str(), 0, false),
        },
        ExpressionKind::InterpolatedString(parts) => ExpressionKind::InterpolatedString(resolve_parts(parts, b)),
        ExpressionKind::Array(values) => ExpressionKind::Array(resolve_args(values, b, "", 0, false)),
        ExpressionKind::Object(fields) => ExpressionKind::Object(resolve_fields(fields, b)),
        ExpressionKind::Lambda { parameters, body } => ExpressionKind::Lambda {
            parameters: parameters.clone(),
            body: Box::new(resolve_expr(body, b)),
        },
        ExpressionKind::Required(inner) => ExpressionKind::Required(Box::new(resolve_expr(inner, b))),
        ExpressionKind::Unary { operator, operand } => ExpressionKind::Unary {
            operator: *operator,
            operand: Box::new(resolve_expr(operand, b)),
        },
        ExpressionKind::FunctionalBlock { receiver, method, body } => {
            let mut child = copy_names(b);
            ExpressionKind::FunctionalBlock {
                receiver: Box::new(resolve_expr(receiver, b)),
                method: method.clone(),
                body: resolve_stmts(body, &mut child),
            }
        },
        ExpressionKind::Binary { left, operator, right } => ExpressionKind::Binary {
            left: Box::new(resolve_expr(left, b)),
            operator: *operator,
            right: Box::new(resolve_expr(right, b)),
        },
        ExpressionKind::IfElse { condition, then_branch, else_branch } => ExpressionKind::IfElse {
            condition: Box::new(resolve_expr(condition, b)),
            then_branch: Box::new(resolve_expr(then_branch, b)),
            else_branch: Box::new(resolve_expr(else_branch, b)),
        },
        ExpressionKind::BlockIf { condition, then_branch, else_branch } => {
            let mut then_names = copy_names(b);
            let c = resolve_expr(condition, b);
            let t = resolve_stmts(then_branch, &mut then_names);
            let el = match else_branch {
                Some(s) => {
                    let mut else_names = copy_names(b);
                    Some(resolve_stmts(s, &mut else_names))
                },
                None => None,
            };
            ExpressionKind::BlockIf { condition: Box::new(c), then_branch: t, else_branch: el }
        },
        ExpressionKind::Switch { target, arms } => ExpressionKind::Switch {
            target: Box::new(resolve_expr(target, b)),
            arms: resolve_arms(arms, b),
        },
        ExpressionKind::Subscript { receiver, index } => ExpressionKind::Subscript {
            receiver: Box::new(resolve_expr(receiver, b)),
            index: Box::new(resolve_expr(index, b)),
        },
        ExpressionKind::Null => ExpressionKind::Null,
        ExpressionKind::Boolean(v) => ExpressionKind::Boolean(*v),
        ExpressionKind::Number(v) => ExpressionKind::Number(v.clone()),
        ExpressionKind::String(v) => ExpressionKind::String(v.clone()),
        ExpressionKind::Variable(v) => ExpressionKind::Variable(v.clone()),
        ExpressionKind::Identifier(v) => ExpressionKind::Identifier(v.clone()),
    };
    Expression { kind, span: e.span }
}

fn resolve_parts(parts: &Vec<InterpolatedStringPart>, b: &Vec<String>) -> (r: Vec<InterpolatedStringPart>)
    ensures
        iparts_view(r@) == r_parts(iparts_view(parts@), name_set(b@), 0),
    decreases parts,
{
    let ghost pv = iparts_view(parts@);
    let ghost bs = name_set(b@);
    proof {
        lemma_iparts_len(parts@);
    }
    let mut out: Vec<InterpolatedStringPart> = Vec::new();
    let mut i: usize = 0;
    while i < parts.len()
        invariant
            pv == iparts_view(parts@),
            pv.len() == parts@.len(),
            bs == name_set(b@),
            i <= parts@.len(),
            r_parts(pv, bs, 0) == iparts_view(out@) + r_parts(pv, bs, i as int),
        decreases parts@.len() - i,
    {
        proof {
            lemma_iparts_index(parts@, i as int);
            assert(decreases_to!(parts => parts@));
            assert(decreases_to!(parts@ => parts@[i as int]));
        }
        let item = match &parts[i] {
            InterpolatedStringPart::Literal(v) => InterpolatedStringPart::Literal(v.clone()),
            InterpolatedStringPart::Expression(x) => InterpolatedStringPart::Expression(resolve_expr(x, b)),
        };
        proof {
            lemma_iparts_push(out@, item);
            assert(iparts_view(out@.push(item)) + r_parts(pv, bs, i + 1) =~= iparts_view(out@) + (seq![
                crate::ast::ipart_view(item),
            ] + r_parts(pv, bs, i + 1)));
        }
        out.push(item);
        i = i + 1;
    }
    proof {
        assert(iparts_view(out@) + r_parts(pv, bs, i as int) =~= iparts_view(out@));
    }
    out
}

fn resolve_fields(fields: &Vec<ObjectField>, b: &Vec<String>) -> (r: Vec<ObjectField>)
    ensures
        fields_view(r@) == r_fields(fields_view(fields@), name_set(b@), 0),
    decreases fields,
{
    let ghost fv = fields_view(fields@);
    let ghost bs = name_set(b@);
    proof {
        lemma_fields_len(fields@);
    }
    let mut out: Vec<ObjectField> = Vec::new();
    let mut i: usize = 0;
    while i < fields.len()
        invariant
            fv == fields_view(fields@),
            fv.len() == fields@.len(),
            bs == name_set(b@),
            i <= fields@.len(),
            r_fields(fv, bs, 0) == fields_view(out@) + r_fields(fv, bs, i as int),
        decreases fields@.len() - i,
    {
        proof {
            lemma_fields_index(fields@, i as int);
            assert(decreases_to!(fields => fields@));
            assert(decreases_to!(fields@ => fields@[i as int]));
        }
        let f = &fields[i];
        let item = ObjectField { name: f.name.clone(), value: resolve_expr(&f.value, b), span: f.span };
        proof {
            lemma_fields_push(out@, item);
            assert(fields_view(out@.push(item)) + r_fields(fv, bs, i + 1) =~= fields_view(out@) + (seq![
                crate::ast::field_view(item),
            ] + r_fields(fv, bs, i + 1)));
        }
        out.push(item);
        i = i + 1;
    }
    proof {
        assert(fields_view(out@) + r_fields(fv, bs, i as int) =~= fields_view(out@));
    }
    out
}

fn resolve_arms(arms: &Vec<SwitchArm>, b: &Vec<String>) -> (r: Vec<SwitchArm>)
    ensures
        arms_view(r@) == r_arms(arms_view(arms@), name_set(b@), 0),
    decreases arms,
{
    let ghost av = arms_view(arms@);
    let ghost bs = name_set(b@);
    proof {
        lemma_arms_len(arms@);
    }
    let mut out: Vec<SwitchArm> = Vec::new();
    let mut i: usize = 0;
    while i < arms.len()
        invariant
            av == arms_view(arms@),
            av.len() == arms@.len(),
            bs == name_set(b@),
            i <= arms@.len(),
            r_arms(av, bs, 0) == arms_view(out@) + r_arms(av, bs, i as int),
        decreases arms@.len() - i,
    {
        proof {
            lemma_arms_index(arms@, i as int);
            assert(decreases_to!(arms => arms@));
            assert(decreases_to!(arms@ => arms@[i as int]));
        }
        let a = &arms[i];
        let pattern = match &a.pattern {
            SwitchPattern::Value(p) => SwitchPattern::Value(resolve_expr(p, b)),
            SwitchPattern::Wildcard => SwitchPattern::Wildcard,
            SwitchPattern::Binding(n) => SwitchPattern::Binding(n.clone()),
        };
        let item = SwitchArm { pattern, value: resolve_expr(&a.value, b), span: a.span };
        proof {
            lemma_arms_push(out@, item);
            assert(arms_view(out@.push(item)) + r_arms(av, bs, i + 1) =~= arms_view(out@) + (seq![
                crate::ast::arm_view(item),
            ] + r_arms(av, bs, i + 1)));
        }
        out.push(item);
        i = i + 1;
    }
    proof {
        assert(arms_view(out@) + r_arms(av, bs, i as int) =~= arms_view(out@));
    }
    out
}

fn resolve_stmt(s: &Statement, b: &mut Vec<String>) -> (r: Statement)
    ensures
        (stmt_view(r), name_set(final(b)@)) == r_stmt(stmt_view(*s), name_set(old(b)@)),
    decreases s,
{
    let kind = match &s.kind {
        StatementKind::Assignment { name, operator, visibility, value } => {
            let v = resolve_expr(value, b);
            add_name(b, name.as_str());
            StatementKind::Assignment { name: name.clone(), operator: *operator, visibility: *visibility, value: v }
        },
        StatementKind::ComputedAssignment { name, value } => StatementKind::ComputedAssignment {
            name: resolve_expr(name, b),
            value: resolve_expr(value, b),
        },
        StatementKind::Return(value) => StatementKind::Return(resolve_expr(value, b)),
        StatementKind::While { condition, body } => {
            let c = resolve_expr(condition, b);
            let body2 = resolve_stmts(body, b);
            StatementKind::While { condition: c, body: body2 }
        },
        StatementKind::Loop { body } => StatementKind::Loop { body: resolve_stmts(body, b) },
        StatementKind::Break => StatementKind::Break,
        StatementKind::Expression(x) => StatementKind::Expression(resolve_expr(x, b)),
    };
    Statement { kind, span: s.span }
}

/// Rewrites statements in order; the names that assignments bind are
/// added to `b` as they come.
pub fn resolve_stmts(stmts: &Vec<Statement>, b: &mut Vec<String>) -> (r: Vec<Statement>)
    ensures
        (stmts_view(r@), name_set(final(b)@)) == r_stmts(stmts_view(stmts@), name_set(old(b)@), 0),
    decreases stmts,
{
    let ghost sv = stmts_view(stmts@);
    let ghost b0 = name_set(b@);
    proof {
        lemma_stmts_len(stmts@);
    }
    let mut out: Vec<Statement> = Vec::new();
    let mut i: usize = 0;
    while i < stmts.len()
        invariant
            sv == stmts_view(stmts@),
            sv.len() == stmts@.len(),
            i <= stmts@.len(),
            r_stmts(sv, b0, 0).0 == stmts_view(out@) + r_stmts(sv, name_set(b@), i as int).0,
            r_stmts(sv, b0, 0).1 == r_stmts(sv, name_set(b@), i as int).1,
        decreases stmts@.len() - i,
    {
        proof {
            lemma_stmts_index(stmts@, i as int);
            assert(decreases_to!(stmts => stmts@));
            assert(decreases_to!(stmts@ => stmts@[i as int]));
        }
        let ghost bi = name_set(b@);
        let item = resolve_stmt(&stmts[i], b);
        proof {
            lemma_stmts_push(out@, item);
            assert(stmts_view(out@.push(item)) + r_stmts(sv, name_set(b@), i + 1).0 =~= stmts_view(out@) + (seq![
                stmt_view(item),
            ] + r_stmts(sv, name_set(b@), i + 1).0));
        }
        out.push(item);
        i = i + 1;
    }
    proof {
        assert(stmts_view(out@) + r_stmts(sv, name_set(b@), i as int).0 =~= stmts_view(out@));
    }
    out
}

} // verus!
