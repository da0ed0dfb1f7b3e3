//! Running a compiled program. The evaluator is a state machine: it walks
//! the program and, where the answer must come from outside (a host
//! function, an HTTP fetch, floating-point arithmetic, a builtin that needs
//! an outside library), it stops and asks. The host performs the request
//! and steps the run again with the reply; each step replays the program
//! from the start, taking the replies so far in order, so a run is a pure
//! function of the program, its inputs and the replies.

use vstd::prelude::*;
use crate::ast::{
    AssignmentOperator, BinaryOperator, ExprKindV, ExprV, Expression, ExpressionKind, FunctionDefinition,
    FunctionV, IPartV, InterpolatedStringPart, PatternV, Statement, StatementKind, StmtKindV, StmtV,
    SwitchPattern, UnaryOperator, Visibility, ArmV, FieldV, expr_view, exprs_view, functions_view,
    iparts_view, fields_view, arms_view, stmt_view, stmts_view, strings_view,
};
use crate::functions::builtin_kind;
use crate::functions::BuiltinFunctionKind;
use crate::operators::{EvaluatedV, operand_error, spec_binary, spec_unary};
use crate::runtime::{HttpPolicyV, HttpRequestV, kind_name, parsed_url_of};
use crate::scope::{ScopeV, SharedV, add_name, assigned, extended, looked_up, output_of};
use crate::source::Span;
use crate::text::decimal;
use crate::runtime::{Diagnostic, ExecutionError, HttpPolicy, HttpRequest};
use crate::operators::Evaluated;
use crate::scope::{Scope, SharedScope};
use crate::text::{push_decimal, str_eq, string_push_str};
use crate::value::{
    Value, Object, diagnostics_view, lemma_value_view, lemma_values_view, values_view,
    ValueV, debug_of, entry_get, entry_insert, kind_of, number_text_of, number_u64, spec_ensure_suffix,
    spec_extend, spec_fetch_request, spec_first, spec_flatten, spec_has, spec_join, spec_keys, spec_last,
    spec_len, spec_nullcheck, spec_range, spec_replace, spec_starts_with, spec_status, spec_take, spec_trim,
    spec_unique, spec_unwrap_or, spec_urlencode, spec_values, spec_zip, values_equal,
};

verus! {

/// An error's message and where it is reported.
pub type ErrV = (Seq<char>, Option<Span>);

/// What a run asks of its host.
pub enum NeedV {
    /// Call the host function (or the builtin that needs an outside
    /// library) of this name with these arguments.
    Host(Seq<char>, Seq<ValueV>),
    /// Send this request and reply with the response.
    Fetch(HttpRequestV),
    /// Finish this floating-point operation.
    Float(EvaluatedV),
}

/// How evaluating a piece of a program ended.
pub enum FlowV {
    Val(ValueV),
    Ret(ValueV),
    Brk,
    Fail(ErrV),
    Need(NeedV),
    Exhausted,
}

/// What a run is evaluated against: the script functions, the names of the
/// host functions, the HTTP policy and the replies received so far.
pub struct EnvV {
    pub functions: Seq<FunctionV>,
    pub hosts: Seq<Seq<char>>,
    pub policy: HttpPolicyV,
    pub replies: Seq<Result<ValueV, ErrV>>,
}

/// The state a run evaluates in: the current frame, what all frames share,
/// how many replies were taken, and the warnings reported.
pub struct StV {
    pub frame: ScopeV,
    pub shared: SharedV,
    pub next: nat,
    pub warnings: Seq<ErrV>,
}

pub open spec fn fail(message: Seq<char>, span: Span) -> FlowV {
    FlowV::Fail((message, Some(span)))
}

/// The next reply, if one was received.
pub open spec fn answer(env: EnvV, st: StV) -> Option<Result<ValueV, ErrV>> {
    if st.next < env.replies.len() {
        Some(env.replies[st.next as int])
    } else {
        None
    }
}

pub open spec fn advanced(st: StV) -> StV {
    StV { next: st.next + 1, ..st }
}

/// An error from outside, reported at `span` when it carries no place.
pub open spec fn spanned(e: ErrV, span: Span) -> ErrV {
    if e.1 is Some {
        e
    } else {
        (e.0, Some(span))
    }
}

/// Asks for `need`: the next reply answers it, else the run stops there.
pub open spec fn ask(env: EnvV, need: NeedV, span: Span, st: StV) -> (FlowV, StV) {
    match answer(env, st) {
        None => (FlowV::Need(need), st),
        Some(Ok(v)) => (FlowV::Val(v), advanced(st)),
        Some(Err(e)) => (FlowV::Fail(spanned(e, span)), advanced(st)),
    }
}

/// An operator's outcome: its value, its error at `span`, or the
/// floating-point work asked of the host.
pub open spec fn settle(env: EnvV, o: Result<EvaluatedV, Seq<char>>, span: Span, st: StV) -> (FlowV, StV) {
    match o {
        Err(m) => (fail(m, span), st),
        Ok(EvaluatedV::Value(v)) => (FlowV::Val(v), st),
        Ok(other) => ask(env, NeedV::Float(other), span, st),
    }
}

/// `!` and `-`; negating the least `i64` goes through floating point.
pub open spec fn unary_outcome(op: UnaryOperator, v: ValueV) -> Result<EvaluatedV, Seq<char>> {
    if op is Negate && v is Number && crate::value::number_i64(v->Number_0) == Some(i64::MIN) {
        Ok(EvaluatedV::FloatNegate(v->Number_0))
    } else {
        spec_unary(op, v)
    }
}

pub open spec fn assign_st(st: StV, name: Seq<char>, v: ValueV, visibility: Visibility) -> StV {
    let (frame, shared) = assigned(st.frame, st.shared, name, v, visibility);
    StV { frame, shared, ..st }
}

/// A block's frame inside `s`.
pub open spec fn child_of(s: ScopeV) -> ScopeV {
    ScopeV { bindings: s.bindings, locals: Seq::empty(), root: false, function_frame: false }
}

/// A function call's frame.
pub open spec fn function_frame() -> ScopeV {
    ScopeV { bindings: Seq::empty(), locals: Seq::empty(), root: false, function_frame: true }
}

pub open spec fn with_frame(st: StV, frame: ScopeV) -> StV {
    StV { frame, ..st }
}

/// A name that starts with `_` is private.
pub open spec fn visibility_of(name: Seq<char>) -> Visibility {
    if name.len() > 0 && name[0] == '_' {
        Visibility::Private
    } else {
        Visibility::Public
    }
}

/// A call of the host function `name`.
pub open spec fn host_call(env: EnvV, name: Seq<char>, args: Seq<ValueV>, span: Span, st: StV) -> (FlowV, StV) {
    if env.hosts.contains(name) {
        ask(env, NeedV::Host(name, args), span, st)
    } else {
        (fail("unlinked function `"@ + name + "`"@, span), st)
    }
}

/// Whether the policy refuses a URL, and with what message.
pub open spec fn url_verdict(policy: HttpPolicyV, url: Seq<char>) -> Option<Seq<char>> {
    match parsed_url_of(url) {
        Ok((scheme, _)) => if policy.allowed_schemes.contains(scheme) {
            None
        } else {
            Some("URL scheme `"@ + scheme + "` is not allowed"@)
        },
        Err(text) => Some("invalid URL: "@ + text),
    }
}

/// What a fetch's reply makes: the response, unless it exceeds the policy's
/// size limit; a failed fetch is reported at the call.
pub open spec fn fetched(env: EnvV, req: HttpRequestV, span: Span, st: StV) -> (FlowV, StV) {
    match answer(env, st) {
        None => (FlowV::Need(NeedV::Fetch(req)), st),
        Some(Ok(v)) => if v is Response && v->Response_0.body.len() > env.policy.max_response_bytes {
            (fail("response body exceeds "@ + decimal(env.policy.max_response_bytes as nat) + " byte limit"@, span), advanced(st))
        } else {
            (FlowV::Val(v), advanced(st))
        },
        Some(Err(e)) => (fail(e.0, span), advanced(st)),
    }
}

/// `extend` and `fetch`.
pub open spec fn core_call(env: EnvV, name: Seq<char>, args: Seq<ValueV>, span: Span, st: StV) -> (FlowV, StV) {
    if name == "extend"@ {
        if args.len() == 2 && args[0] is Array {
            (outcome(spec_extend(args[0], args.drop_first()), span), st)
        } else if args.len() == 1 && args[0] is Object {
            let (frame, shared) = extended(st.frame, st.shared, args[0]->Object_0);
            (FlowV::Val(args[0]), StV { frame, shared, ..st })
        } else if args.len() == 1 {
            (fail("`extend` expects an object"@, span), st)
        } else {
            (fail("`extend` expects exactly one object argument"@, span), st)
        }
    } else if name == "fetch"@ {
        match spec_fetch_request(args) {
            Err(m) => (fail(m, span), st),
            Ok(req) => match url_verdict(env.policy, req.url) {
                Some(m) => (fail(m, span), st),
                None => fetched(env, req, span, st),
            },
        }
    } else {
        (fail("unknown core function `"@ + name + "`"@, span), st)
    }
}

pub open spec fn outcome(o: Result<ValueV, Seq<char>>, span: Span) -> FlowV {
    match o {
        Ok(v) => FlowV::Val(v),
        Err(m) => fail(m, span),
    }
}

/// The builtins on values that the library computes itself; the others are
/// asked of the host.
pub open spec fn value_builtin(name: Seq<char>, t: ValueV, args: Seq<ValueV>) -> Option<Result<ValueV, Seq<char>>> {
    if name == "keys"@ {
        Some(spec_keys(t, args.len()))
    } else if name == "values"@ {
        Some(spec_values(t, args.len()))
    } else if name == "has"@ {
        Some(spec_has(t, args))
    } else if name == "nullcheck"@ {
        Some(spec_nullcheck(t, args))
    } else if name == "unwrap_or"@ {
        Some(spec_unwrap_or(t, args))
    } else if name == "flatten"@ {
        Some(spec_flatten(t, args.len()))
    } else if name == "first"@ {
        Some(spec_first(t, args.len()))
    } else if name == "last"@ {
        Some(spec_last(t, args.len()))
    } else if name == "extend"@ {
        Some(spec_extend(t, args))
    } else if name == "starts_with"@ {
        Some(spec_starts_with(t, args))
    } else if name == "replace"@ {
        Some(spec_replace(t, args))
    } else if name == "range"@ {
        Some(spec_range(t, args))
    } else if name == "take"@ {
        Some(spec_take(t, args))
    } else if name == "zip"@ {
        Some(spec_zip(t, args))
    } else if name == "unique"@ {
        Some(spec_unique(t, args.len()))
    } else if name == "len"@ {
        Some(spec_len(t, args.len()))
    } else if name == "trim"@ {
        Some(spec_trim(t, args.len()))
    } else if name == "ensure_suffix"@ {
        Some(spec_ensure_suffix(t, args))
    } else if name == "join"@ {
        Some(spec_join(t, args))
    } else if name == "urlencode"@ {
        Some(spec_urlencode(t, args.len()))
    } else if name == "status"@ {
        Some(spec_status(t, args.len()))
    } else {
        None
    }
}

/// How a value reads inside an interpolated string.
pub open spec fn interp_text(v: ValueV) -> Result<Seq<char>, Seq<char>> {
    match v {
        ValueV::Null => Ok("null"@),
        ValueV::Boolean(b) => Ok(if b { "true"@ } else { "false"@ }),
        ValueV::Number(n) => Ok(number_text_of(n)),
        ValueV::Str(s) => Ok(s),
        _ => Err("cannot interpolate "@ + kind_name(kind_of(v))),
    }
}

/// `receiver[index]`: an array item by position (null past the end), an
/// object field by name (null when absent).
pub open spec fn subscript(rv: ValueV, iv: ValueV) -> Result<ValueV, Seq<char>> {
    match iv {
        ValueV::Number(n) => match number_u64(n) {
            Some(u) if u <= usize::MAX => match rv {
                ValueV::Array(items) => Ok(if u < items.len() { items[u as int] } else { ValueV::Null }),
                _ => Err("cannot index "@ + kind_name(kind_of(rv)) + " with integer index "@ + decimal(u as nat)),
            },
            _ => Err("subscript index must be a valid non-negative integer, got number "@ + number_text_of(n)),
        },
        ValueV::Str(k) => match rv {
            ValueV::Object(m) => Ok(match entry_get(m, k) {
                Some(v) => v,
                None => ValueV::Null,
            }),
            _ => Err("cannot index "@ + kind_name(kind_of(rv)) + " with string key `"@ + k + "`"@),
        },
        _ => Err("subscript index must be a number or a string, got "@ + kind_name(kind_of(iv))),
    }
}

/// Where a required value has nothing: the value itself when it is null or
/// an empty array, else the first such item, by its index path.
pub open spec fn first_missing(v: ValueV) -> Option<Seq<nat>>
    decreases v, 0int,
{
    match v {
        ValueV::Null => Some(Seq::empty()),
        ValueV::Array(items) => if items.len() == 0 {
            Some(Seq::empty())
        } else {
            first_missing_in(items, 0)
        },
        _ => None,
    }
}

pub open spec fn first_missing_in(items: Seq<ValueV>, i: nat) -> Option<Seq<nat>>
    decreases items, items.len() - i,
{
    if i >= items.len() {
        None
    } else {
        match first_missing(items[i as int]) {
            Some(path) => Some(seq![i].add(path)),
            None => first_missing_in(items, i + 1),
        }
    }
}

/// An index path as the message writes it, `0.2.1`.
pub open spec fn path_text(path: Seq<nat>) -> Seq<char>
    decreases path.len(),
{
    if path.len() == 0 {
        Seq::empty()
    } else if path.len() == 1 {
        decimal(path[0])
    } else {
        path_text(path.drop_last()) + "."@ + decimal(path.last())
    }
}

/// The operation a required expression names, and its first argument when
/// that is a string literal.
pub open spec fn required_operation(inner: ExprV) -> (Seq<char>, Option<Seq<char>>) {
    match inner.kind {
        ExprKindV::MethodCall { name, multiple, arguments, .. } => (
            if multiple { name + "@"@ } else { name },
            if arguments.len() > 0 && arguments[0].kind is Str { Some(arguments[0].kind->Str_0) } else { None },
        ),
        _ => ("unknown"@, None),
    }
}

pub open spec fn required_message(inner: ExprV, path: Seq<nat>) -> Seq<char> {
    let (op, arg) = required_operation(inner);
    "required `"@ + op + "` operation"@
        + (match arg { Some(a) => " `"@ + a + "`"@, None => Seq::empty() })
        + " produced no result"@
        + (if path.len() == 0 { Seq::empty() } else { " at item index "@ + path_text(path) })
}

/// The first script function named `name`.
pub open spec fn function_named(fs: Seq<FunctionV>, name: Seq<char>, i: nat) -> Option<FunctionV>
    decreases fs.len() - i,
{
    if i >= fs.len() {
        None
    } else if fs[i as int].name == name {
        Some(fs[i as int])
    } else {
        function_named(fs, name, i + 1)
    }
}

/// The frame of a call with the parameters bound, privately, in order.
pub open spec fn bound(st: StV, params: Seq<Seq<char>>, args: Seq<ValueV>) -> StV
    decreases params.len(),
{
    if params.len() == 0 || args.len() != params.len() {
        st
    } else {
        assign_st(bound(st, params.drop_last(), args.drop_last()), params.last(), args.last(), Visibility::Private)
    }
}

pub open spec fn arity_message(name: Seq<char>, expected: nat, got: nat) -> Seq<char> {
    "function `"@ + name + "` expects "@ + decimal(expected) + " argument"@
        + (if expected == 1 { Seq::empty() } else { "s"@ }) + ", got "@ + decimal(got)
}

/// `assertEq(actual, expected)` and `assertEq(actual, expected, message)`.
pub open spec fn assert_eq_outcome(args: Seq<ValueV>) -> Result<ValueV, Seq<char>> {
    if args.len() == 2 || (args.len() == 3 && args[2] is Str) {
        if values_equal(args[0], args[1]) {
            Ok(ValueV::Null)
        } else {
            Err((if args.len() == 3 { args[2]->Str_0 + ": "@ } else { Seq::empty() })
                + "assertEq expected "@ + debug_of(args[1]) + ", got "@ + debug_of(args[0]))
        }
    } else if args.len() == 3 {
        Err("`assertEq` message must be a string, got "@ + kind_name(kind_of(args[2])))
    } else {
        Err("`assertEq` expects two values and an optional message"@)
    }
}

/// The name a call goes by: a method call `x.name@(..)` is `name@`.
pub open spec fn call_name(e: ExprV) -> Seq<char> {
    match e.kind {
        ExprKindV::MethodCall { name, multiple, .. } => if multiple { name + "@"@ } else { name },
        ExprKindV::FunctionCall { name, .. } => name,
        _ => Seq::empty(),
    }
}

pub open spec fn target_message(name: Seq<char>) -> Seq<char> {
    "`"@ + name + "` expects a target value as the first argument"@
}

// ---------------------------------------------------------------------------
// Evaluation
// ---------------------------------------------------------------------------

/// Evaluates the expression `e`. `fuel` bounds the loop iterations and
/// calls; when it runs out the flow is `Exhausted`.
pub open spec fn ev_expr(env: EnvV, fuel: nat, e: ExprV, st: StV) -> (FlowV, StV)
    decreases fuel, e, 3int, 0int,
{
    let span = e.span;
    match e.kind {
        ExprKindV::Null => (FlowV::Val(ValueV::Null), st),
        ExprKindV::Boolean(b) => (FlowV::Val(ValueV::Boolean(b)), st),
        ExprKindV::Number(text) => match number_parse_of(text) {
            Ok(n) => (FlowV::Val(ValueV::Number(n)), st),
            Err(m) => (fail("invalid number: "@ + m, span), st),
        },
        ExprKindV::Str(s) => (FlowV::Val(ValueV::Str(s)), st),
        ExprKindV::InterpolatedString(parts) => ev_parts(env, fuel, parts, 0, Seq::empty(), st),
        ExprKindV::Array(items) => {
            let (r, st1) = ev_list(env, fuel, items, 0, Seq::empty(), st);
            match r {
                Ok(vs) => (FlowV::Val(ValueV::Array(vs)), st1),
                Err(f) => (f, st1),
            }
        },
        ExprKindV::Object(fields) => ev_fields(env, fuel, fields, 0, Seq::empty(), st),
        ExprKindV::Variable(name) => match looked_up(st.frame, st.shared, name) {
            Some(v) => (FlowV::Val(v), st),
            None => (fail("unresolved value `"@ + name + "`"@, span), st),
        },
        ExprKindV::Identifier(name) => match looked_up(st.frame, st.shared, name) {
            Some(v) => (FlowV::Val(v), st),
            None => (fail("unresolved value `"@ + name + "`"@, span), st),
        },
        ExprKindV::FunctionCall { .. } => ev_call(env, fuel, e, st),
        ExprKindV::MethodCall { .. } => ev_call(env, fuel, e, st),
        ExprKindV::QualifiedFunctionCall { module, name, arguments } => {
            let (r, st1) = ev_list(env, fuel, arguments, 0, Seq::empty(), st);
            match r {
                Ok(vs) => host_call(env, module + "."@ + name, vs, span, st1),
                Err(f) => (f, st1),
            }
        },
        ExprKindV::CoreCall { name, arguments } => {
            let (r, st1) = ev_list(env, fuel, arguments, 0, Seq::empty(), st);
            match r {
                Ok(vs) => core_call(env, name, vs, span, st1),
                Err(f) => (f, st1),
            }
        },
        ExprKindV::Lambda { .. } => (fail("lambda cannot be used as a value"@, span), st),
        ExprKindV::FunctionalBlock { receiver, method, body } => {
            let (f, st1) = ev_expr(env, fuel, *receiver, st);
            match f {
                FlowV::Val(rv) => if method != "map"@ {
                    (fail("unsupported functional block `"@ + method + "`"@, span), st1)
                } else {
                    match rv {
                        ValueV::Array(items) => ev_map_block(env, fuel, body, items, 0, Seq::empty(), st1),
                        _ => (fail(operand_error("array"@, rv), span), st1),
                    }
                },
                other => (other, st1),
            }
        },
        ExprKindV::Required(inner) => {
            let (f, st1) = ev_expr(env, fuel, *inner, st);
            match f {
                FlowV::Val(v) => match first_missing(v) {
                    None => (FlowV::Val(v), st1),
                    Some(path) => (fail(required_message(*inner, path), span), st1),
                },
                other => (other, st1),
            }
        },
        ExprKindV::Unary { operator, operand } => {
            let (f, st1) = ev_expr(env, fuel, *operand, st);
            match f {
                FlowV::Val(v) => settle(env, unary_outcome(operator, v), span, st1),
                other => (other, st1),
            }
        },
        ExprKindV::Binary { left, operator, right } => {
            let (f, st1) = ev_expr(env, fuel, *left, st);
            match f {
                FlowV::Val(lv) => if operator is And || operator is Or {
                    match lv {
                        ValueV::Boolean(b) => if (operator is And && !b) || (operator is Or && b) {
                            (FlowV::Val(ValueV::Boolean(b)), st1)
                        } else {
                            let (g, st2) = ev_expr(env, fuel, *right, st1);
                            match g {
                                FlowV::Val(ValueV::Boolean(c)) => (FlowV::Val(ValueV::Boolean(c)), st2),
                                FlowV::Val(rv) => (fail(operand_error("boolean"@, rv), span), st2),
                                other => (other, st2),
                            }
                        },
                        _ => (fail(operand_error("boolean"@, lv), span), st1),
                    }
                } else {
                    let (g, st2) = ev_expr(env, fuel, *right, st1);
                    match g {
                        FlowV::Val(rv) => settle(env, spec_binary(lv, operator, rv), span, st2),
                        other => (other, st2),
                    }
                },
                other => (other, st1),
            }
        },
        ExprKindV::IfElse { condition, then_branch, else_branch } => {
            let (f, st1) = ev_expr(env, fuel, *condition, st);
            match f {
                FlowV::Val(ValueV::Boolean(true)) => ev_expr(env, fuel, *then_branch, st1),
                FlowV::Val(ValueV::Boolean(false)) => ev_expr(env, fuel, *else_branch, st1),
                FlowV::Val(v) => (fail("expected boolean condition, got "@ + kind_name(kind_of(v)), span), st1),
                other => (other, st1),
            }
        },
        ExprKindV::BlockIf { condition, then_branch, else_branch } => {
            let (f, st1) = ev_expr(env, fuel, *condition, st);
            match f {
                FlowV::Val(ValueV::Boolean(true)) => ev_block(env, fuel, then_branch, 0, ValueV::Null, st1),
                FlowV::Val(ValueV::Boolean(false)) => match else_branch {
                    Some(b) => ev_block(env, fuel, b, 0, ValueV::Null, st1),
                    None => (FlowV::Val(ValueV::Null), st1),
                },
                FlowV::Val(v) => (fail("expected boolean condition, got "@ + kind_name(kind_of(v)), span), st1),
                other => (other, st1),
            }
        },
        ExprKindV::Switch { target, arms } => {
            let (f, st1) = ev_expr(env, fuel, *target, st);
            match f {
                FlowV::Val(t) => ev_arms(env, fuel, arms, 0, t, span, st1),
                other => (other, st1),
            }
        },
        ExprKindV::Subscript { receiver, index } => {
            let (f, st1) = ev_expr(env, fuel, *receiver, st);
            match f {
                FlowV::Val(rv) => {
                    let (g, st2) = ev_expr(env, fuel, *index, st1);
                    match g {
                        FlowV::Val(iv) => (outcome(subscript(rv, iv), span), st2),
                        other => (other, st2),
                    }
                },
                other => (other, st1),
            }
        },
    }
}

/// Evaluates `es` from index `i` on, after the values `acc`.
pub open spec fn ev_list(env: EnvV, fuel: nat, es: Seq<ExprV>, i: int, acc: Seq<ValueV>, st: StV) -> (Result<Seq<ValueV>, FlowV>, StV)
    decreases fuel, es, 0int, es.len() - i,
{
    if i < 0 || i >= es.len() {
        (Ok(acc), st)
    } else {
        let (f, st1) = ev_expr(env, fuel, es[i], st);
        match f {
            FlowV::Val(v) => ev_list(env, fuel, es, i + 1, acc.push(v), st1),
            other => (Err(other), st1),
        }
    }
}

/// The text of an interpolated string from part `i` on, after `out`.
pub open spec fn ev_parts(env: EnvV, fuel: nat, parts: Seq<IPartV>, i: int, out: Seq<char>, st: StV) -> (FlowV, StV)
    decreases fuel, parts, 0int, parts.len() - i,
{
    if i < 0 || i >= parts.len() {
        (FlowV::Val(ValueV::Str(out)), st)
    } else {
        match parts[i] {
            IPartV::Literal(s) => ev_parts(env, fuel, parts, i + 1, out + s, st),
            IPartV::Expression(x) => {
                let (f, st1) = ev_expr(env, fuel, x, st);
                match f {
                    FlowV::Val(v) => match interp_text(v) {
                        Ok(t) => ev_parts(env, fuel, parts, i + 1, out + t, st1),
                        Err(m) => (fail(m, x.span), st1),
                    },
                    other => (other, st1),
                }
            },
        }
    }
}

/// An object literal from field `i` on, after the fields `acc`.
pub open spec fn ev_fields(env: EnvV, fuel: nat, fields: Seq<FieldV>, i: int, acc: Seq<(Seq<char>, ValueV)>, st: StV) -> (FlowV, StV)
    decreases fuel, fields, 0int, fields.len() - i,
{
    if i < 0 || i >= fields.len() {
        (FlowV::Val(ValueV::Object(acc)), st)
    } else {
        let (f, st1) = ev_expr(env, fuel, fields[i].value, st);
        match f {
            FlowV::Val(v) => ev_fields(env, fuel, fields, i + 1, entry_insert(acc, fields[i].name, v), st1),
            other => (other, st1),
        }
    }
}

/// A switch from arm `i` on: the first arm whose pattern equals `t`, is
/// `_`, or binds it.
pub open spec fn ev_arms(env: EnvV, fuel: nat, arms: Seq<ArmV>, i: int, t: ValueV, span: Span, st: StV) -> (FlowV, StV)
    decreases fuel, arms, 0int, arms.len() - i,
{
    if i < 0 || i >= arms.len() {
        (fail("switch expression did not match and has no fallback"@, span), st)
    } else {
        match arms[i].pattern {
            PatternV::Value(p) => {
                let (f, st1) = ev_expr(env, fuel, p, st);
                match f {
                    FlowV::Val(pv) => if values_equal(pv, t) {
                        ev_expr(env, fuel, arms[i].value, st1)
                    } else {
                        ev_arms(env, fuel, arms, i + 1, t, span, st1)
                    },
                    other => (other, st1),
                }
            },
            PatternV::Wildcard => ev_expr(env, fuel, arms[i].value, st),
            PatternV::Binding(name) => {
                let inner = assign_st(with_frame(st, child_of(st.frame)), name, t, Visibility::Private);
                let (f, st1) = ev_expr(env, fuel, arms[i].value, inner);
                (f, with_frame(st1, st.frame))
            },
        }
    }
}

/// The arguments of a call, the receiver of a method call first.
pub open spec fn ev_all_args(env: EnvV, fuel: nat, e: ExprV, st: StV) -> (Result<Seq<ValueV>, FlowV>, StV)
    decreases fuel, e, 1int, 0int,
{
    match e.kind {
        ExprKindV::MethodCall { receiver, arguments, .. } => {
            let (f, st1) = ev_expr(env, fuel, *receiver, st);
            match f {
                FlowV::Val(v) => ev_list(env, fuel, arguments, 0, seq![v], st1),
                other => (Err(other), st1),
            }
        },
        ExprKindV::FunctionCall { arguments, .. } => ev_list(env, fuel, arguments, 0, Seq::empty(), st),
        _ => (Ok(Seq::empty()), st),
    }
}

/// The target of a call on a value: a method call's receiver, else the
/// first argument.
pub open spec fn ev_target(env: EnvV, fuel: nat, e: ExprV, st: StV) -> (FlowV, StV)
    decreases fuel, e, 1int, 0int,
{
    match e.kind {
        ExprKindV::MethodCall { receiver, .. } => ev_expr(env, fuel, *receiver, st),
        ExprKindV::FunctionCall { name, arguments } => if arguments.len() == 0 {
            (fail(target_message(name), e.span), st)
        } else {
            ev_expr(env, fuel, arguments[0], st)
        },
        _ => (FlowV::Val(ValueV::Null), st),
    }
}

/// The arguments after the target.
pub open spec fn ev_rest(env: EnvV, fuel: nat, e: ExprV, st: StV) -> (Result<Seq<ValueV>, FlowV>, StV)
    decreases fuel, e, 1int, 0int,
{
    match e.kind {
        ExprKindV::MethodCall { arguments, .. } => ev_list(env, fuel, arguments, 0, Seq::empty(), st),
        ExprKindV::FunctionCall { arguments, .. } => ev_list(env, fuel, arguments, 1, Seq::empty(), st),
        _ => (Ok(Seq::empty()), st),
    }
}

/// A call by name: a builtin, `assertEq`, a script function, or a host
/// function.
pub open spec fn ev_call(env: EnvV, fuel: nat, e: ExprV, st: StV) -> (FlowV, StV)
    decreases fuel, e, 2int, 0int,
{
    let name = call_name(e);
    let span = e.span;
    match builtin_kind(name) {
        Some(BuiltinFunctionKind::Lambda) => {
            let (f, st1) = ev_target(env, fuel, e, st);
            match f {
                FlowV::Val(t) => if name == "assert"@ || name == "warn"@ {
                    ev_guard(env, fuel, e, name, t, st1)
                } else {
                    ev_lambda(env, fuel, e, name, t, st1)
                },
                other => (other, st1),
            }
        },
        Some(BuiltinFunctionKind::Value) => {
            let (f, st1) = ev_target(env, fuel, e, st);
            match f {
                FlowV::Val(t) => {
                    let (r, st2) = ev_rest(env, fuel, e, st1);
                    match r {
                        Ok(vs) => match value_builtin(name, t, vs) {
                            Some(o) => (outcome(o, span), st2),
                            None => ask(env, NeedV::Host(name, seq![t] + vs), span, st2),
                        },
                        Err(g) => (g, st2),
                    }
                },
                other => (other, st1),
            }
        },
        Some(BuiltinFunctionKind::Core) => {
            let (r, st1) = ev_all_args(env, fuel, e, st);
            match r {
                Ok(vs) => core_call(env, name, vs, span, st1),
                Err(g) => (g, st1),
            }
        },
        None => {
            let (r, st1) = ev_all_args(env, fuel, e, st);
            match r {
                Ok(vs) => if name == "assertEq"@ {
                    (outcome(assert_eq_outcome(vs), span), st1)
                } else {
                    match function_named(env.functions, name, 0) {
                        Some(fun) => if vs.len() != fun.parameters.len() {
                            (fail(arity_message(name, fun.parameters.len(), vs.len()), span), st1)
                        } else if fuel == 0 {
                            (FlowV::Exhausted, st1)
                        } else {
                            let inner = bound(with_frame(st1, function_frame()), fun.parameters, vs);
                            let (g, st2) = ev_block(env, (fuel - 1) as nat, fun.body, 0, ValueV::Null, inner);
                            let back = with_frame(st2, st1.frame);
                            match g {
                                FlowV::Val(v) => (FlowV::Val(v), back),
                                FlowV::Ret(v) => (FlowV::Val(v), back),
                                FlowV::Brk => (fail("`break` escaped its loop"@, span), back),
                                other => (other, back),
                            }
                        },
                        None => host_call(env, name, vs, span, st1),
                    }
                },
                Err(g) => (g, st1),
            }
        },
    }
}

/// What a guard does once its condition is known: a passing guard, or a
/// failing `warn` (which records the message as a warning), gives `t`; a
/// failing `assert` is an error with the message.
pub open spec fn guard_outcome(warning: bool, passed: bool, m: Seq<char>, t: ValueV, span: Span, st: StV) -> (FlowV, StV) {
    if passed {
        (FlowV::Val(t), st)
    } else if warning {
        (FlowV::Val(t), StV { warnings: st.warnings.push((m, Some(span))), ..st })
    } else {
        (fail(m, span), st)
    }
}

/// `assert` and `warn`: on a boolean target with a message, or with a
/// lambda run on the target in a child frame, and a message.
pub open spec fn ev_guard(env: EnvV, fuel: nat, e: ExprV, name: Seq<char>, t: ValueV, st: StV) -> (FlowV, StV)
    decreases fuel, e, 1int, 0int,
{
    let span = e.span;
    let warning = name == "warn"@;
    let (arguments, first) = match e.kind {
        ExprKindV::MethodCall { arguments, .. } => (arguments, 0int),
        ExprKindV::FunctionCall { arguments, .. } => (arguments, 1int),
        _ => (Seq::empty(), 0int),
    };
    if arguments.len() == first + 1 && t is Boolean {
        let (f, st1) = ev_expr(env, fuel, arguments[first], st);
        match f {
            FlowV::Val(ValueV::Str(m)) => guard_outcome(warning, t->Boolean_0, m, t, span, st1),
            FlowV::Val(other) => (fail(operand_error("string"@, other), span), st1),
            other => (other, st1),
        }
    } else if arguments.len() != first + 2 {
        (fail("guard expects a lambda and message"@, span), st)
    } else {
        match arguments[first].kind {
            ExprKindV::Lambda { parameters, body } => if parameters.len() != 1 {
                (fail("guard expects a one-parameter lambda"@, span), st)
            } else {
                let (f, st1) = ev_expr(env, fuel, arguments[first + 1], st);
                match f {
                    FlowV::Val(ValueV::Str(m)) => {
                        let inner = assign_st(with_frame(st1, child_of(st1.frame)), parameters[0], t, Visibility::Private);
                        let (g, st2) = ev_expr(env, fuel, *body, inner);
                        let back = with_frame(st2, st1.frame);
                        match g {
                            FlowV::Val(ValueV::Boolean(passed)) => guard_outcome(warning, passed, m, t, span, back),
                            FlowV::Val(other) => (fail(operand_error("boolean"@, other), span), back),
                            other => (other, back),
                        }
                    },
                    FlowV::Val(other) => (fail(operand_error("string"@, other), span), st1),
                    other => (other, st1),
                }
            },
            _ => (fail("guard expects a lambda"@, span), st),
        }
    }
}

pub open spec fn sort_by_message() -> Seq<char> {
    "`sort_by` comparator must return a number"@
}

/// One insertion step of `sort_by`: the item at `current` moves left while
/// the comparator, run on the item before it and on it, gives a number
/// above zero.
pub open spec fn ev_sort_inner(
    env: EnvV,
    fuel: nat,
    body: ExprV,
    p0: Seq<char>,
    p1: Seq<char>,
    vals: Seq<ValueV>,
    current: int,
    span: Span,
    st: StV,
) -> (FlowV, StV, Seq<ValueV>)
    decreases fuel, body, 4int, current,
{
    if current <= 0 || current >= vals.len() {
        (FlowV::Val(ValueV::Null), st, vals)
    } else {
        let bound0 = assign_st(with_frame(st, child_of(st.frame)), p0, vals[current - 1], Visibility::Private);
        let inner = assign_st(bound0, p1, vals[current], Visibility::Private);
        let (f, st1) = ev_expr(env, fuel, body, inner);
        let back = with_frame(st1, st.frame);
        match f {
            FlowV::Val(ValueV::Number(n)) => {
                let (g, st2) = match crate::value::number_i64(n) {
                    Some(i) => (FlowV::Val(ValueV::Boolean(i <= 0)), back),
                    None => ask(env, NeedV::Float(EvaluatedV::Float(BinaryOperator::LessEqual, n, crate::value::number_of_i64(0))), span, back),
                };
                match g {
                    FlowV::Val(ValueV::Boolean(true)) => (FlowV::Val(ValueV::Null), st2, vals),
                    FlowV::Val(ValueV::Boolean(false)) => ev_sort_inner(
                        env, fuel, body, p0, p1,
                        vals.update(current - 1, vals[current]).update(current, vals[current - 1]),
                        current - 1, span, st2,
                    ),
                    FlowV::Val(_) => (fail(sort_by_message(), span), st2, vals),
                    other => (other, st2, vals),
                }
            },
            FlowV::Val(_) => (fail(sort_by_message(), span), back, vals),
            other => (other, back, vals),
        }
    }
}

/// `sort_by`: an insertion sort of the items from position `index` on
/// (of `n`), ordered by the two-parameter comparator `body`.
pub open spec fn ev_sort_outer(
    env: EnvV,
    fuel: nat,
    body: ExprV,
    p0: Seq<char>,
    p1: Seq<char>,
    vals: Seq<ValueV>,
    index: int,
    n: nat,
    span: Span,
    st: StV,
) -> (FlowV, StV)
    decreases fuel, body, 5int, n - index,
{
    if index >= n || index < 0 {
        (FlowV::Val(ValueV::Array(vals)), st)
    } else {
        let (f, st1, vals1) = ev_sort_inner(env, fuel, body, p0, p1, vals, index, span, st);
        match f {
            FlowV::Val(_) => ev_sort_outer(env, fuel, body, p0, p1, vals1, index + 1, n, span, st1),
            other => (other, st1),
        }
    }
}

/// The lambda of a builtin such as `map`: its parameter names and body.
pub open spec fn lambda_arg(e: ExprV) -> Option<(Seq<Seq<char>>, ExprV)> {
    let (arguments, first) = match e.kind {
        ExprKindV::MethodCall { arguments, .. } => (arguments, 0int),
        ExprKindV::FunctionCall { arguments, .. } => (arguments, 1int),
        _ => (Seq::empty(), 0int),
    };
    if arguments.len() != first + 1 {
        None
    } else {
        match arguments[first].kind {
            ExprKindV::Lambda { parameters, body } => Some((parameters, *body)),
            _ => None,
        }
    }
}

/// The builtins that take a lambda. `map`, `filter`, `any`, `all` and
/// `find` run it on each item of the target array.
pub open spec fn ev_lambda(env: EnvV, fuel: nat, e: ExprV, name: Seq<char>, t: ValueV, st: StV) -> (FlowV, StV)
    decreases fuel, e, 1int, 0int,
{
    let span = e.span;
    let (arguments, first) = match e.kind {
        ExprKindV::MethodCall { arguments, .. } => (arguments, 0int),
        ExprKindV::FunctionCall { arguments, .. } => (arguments, 1int),
        _ => (Seq::empty(), 0int),
    };
    if !(name == "map"@ || name == "filter"@ || name == "any"@ || name == "all"@ || name == "find"@ || name == "sort_by"@) {
        (fail("`"@ + name + "` is not available in this runtime"@, span), st)
    } else if arguments.len() != first + 1 {
        (fail("`"@ + name + "` expects one lambda"@, span), st)
    } else {
        match arguments[first].kind {
            ExprKindV::Lambda { parameters, body } => if name == "sort_by"@ {
                if parameters.len() != 2 {
                    (fail("`sort_by` expects a 2-parameter lambda"@, span), st)
                } else {
                    match t {
                        ValueV::Array(items) => ev_sort_outer(env, fuel, *body, parameters[0], parameters[1], items, 1, items.len(), span, st),
                        _ => (fail(operand_error("array"@, t), span), st),
                    }
                }
            } else if parameters.len() != 1 {
                (fail("`"@ + name + "` expects a one-parameter lambda"@, span), st)
            } else {
                match t {
                    ValueV::Array(items) => ev_items(env, fuel, *body, name, parameters[0], items, 0, Seq::empty(), span, st),
                    _ => (fail(operand_error("array"@, t), span), st),
                }
            },
            _ => (fail("`"@ + name + "` expects a lambda"@, span), st),
        }
    }
}

/// Runs a lambda's `body` on the items from `i` on, with the parameter
/// bound in a child frame; `acc` holds what `map` and `filter` keep.
pub open spec fn ev_items(
    env: EnvV,
    fuel: nat,
    body: ExprV,
    name: Seq<char>,
    param: Seq<char>,
    items: Seq<ValueV>,
    i: int,
    acc: Seq<ValueV>,
    span: Span,
    st: StV,
) -> (FlowV, StV)
    decreases fuel, body, 4int, items.len() - i,
{
    if i < 0 || i >= items.len() {
        (FlowV::Val(
            if name == "any"@ {
                ValueV::Boolean(false)
            } else if name == "all"@ {
                ValueV::Boolean(true)
            } else if name == "find"@ {
                ValueV::Null
            } else {
                ValueV::Array(acc)
            },
        ), st)
    } else {
        let item = items[i];
        let inner = assign_st(with_frame(st, child_of(st.frame)), param, item, Visibility::Private);
        let (f, st1) = ev_expr(env, fuel, body, inner);
        let back = with_frame(st1, st.frame);
        match f {
            FlowV::Val(v) => if name == "map"@ {
                ev_items(env, fuel, body, name, param, items, i + 1, acc.push(v), span, back)
            } else {
                match v {
                    ValueV::Boolean(keep) => if name == "filter"@ {
                        ev_items(env, fuel, body, name, param, items, i + 1, if keep { acc.push(item) } else { acc }, span, back)
                    } else if name == "any"@ && keep {
                        (FlowV::Val(ValueV::Boolean(true)), back)
                    } else if name == "all"@ && !keep {
                        (FlowV::Val(ValueV::Boolean(false)), back)
                    } else if name == "find"@ && keep {
                        (FlowV::Val(item), back)
                    } else {
                        ev_items(env, fuel, body, name, param, items, i + 1, acc, span, back)
                    },
                    _ => (fail(operand_error("boolean"@, v), span), back),
                }
            },
            other => (other, back),
        }
    }
}

/// `items.map { .. }` from item `i` on: the block runs in a child frame with
/// `it` bound, and each item gives what that frame outputs.
pub open spec fn ev_map_block(env: EnvV, fuel: nat, body: Seq<StmtV>, items: Seq<ValueV>, i: int, acc: Seq<ValueV>, st: StV) -> (FlowV, StV)
    decreases fuel, body, 4int, items.len() - i,
{
    if i < 0 || i >= items.len() {
        (FlowV::Val(ValueV::Array(acc)), st)
    } else {
        let inner = assign_st(with_frame(st, child_of(st.frame)), "it"@, items[i], Visibility::Private);
        let (f, st1) = ev_block(env, fuel, body, 0, ValueV::Null, inner);
        let back = with_frame(st1, st.frame);
        match f {
            FlowV::Val(_) => ev_map_block(env, fuel, body, items, i + 1, acc.push(ValueV::Object(output_of(st1.frame, st1.shared))), back),
            other => (other, back),
        }
    }
}

/// After an expression statement `x.extend(..)` on a variable, the variable
/// is bound to the result.
pub open spec fn statement_effect(x: ExprV, v: ValueV, st: StV) -> StV {
    match x.kind {
        ExprKindV::MethodCall { receiver, name, .. } => if name == "extend"@ && receiver.kind is Variable {
            let b = receiver.kind->Variable_0;
            assign_st(st, b, v, visibility_of(b))
        } else {
            st
        },
        _ => st,
    }
}

/// Runs one statement; a value flow carries what the statement leaves as
/// the block's last value.
pub open spec fn ev_stmt(env: EnvV, fuel: nat, s: StmtV, st: StV) -> (FlowV, StV)
    decreases fuel, s, 1int, 0int,
{
    match s.kind {
        StmtKindV::Assignment { name, operator, visibility, value } => {
            let (f, st1) = ev_expr(env, fuel, value, st);
            match f {
                FlowV::Val(v) => match operator {
                    AssignmentOperator::Assign => (FlowV::Val(ValueV::Null), assign_st(st1, name, v, visibility)),
                    _ => match looked_up(st1.frame, st1.shared, name) {
                        None => (fail("cannot update unresolved value `"@ + name + "`"@, s.span), st1),
                        Some(current) => {
                            let op = if operator is Add { BinaryOperator::Add } else { BinaryOperator::Subtract };
                            let (g, st2) = settle(env, spec_binary(current, op, v), s.span, st1);
                            match g {
                                FlowV::Val(nv) => (FlowV::Val(ValueV::Null), assign_st(st2, name, nv, visibility)),
                                other => (other, st2),
                            }
                        },
                    },
                },
                other => (other, st1),
            }
        },
        StmtKindV::ComputedAssignment { name, value } => {
            let (f, st1) = ev_expr(env, fuel, name, st);
            match f {
                FlowV::Val(ValueV::Str(n)) => {
                    let (g, st2) = ev_expr(env, fuel, value, st1);
                    match g {
                        FlowV::Val(v) => (FlowV::Val(ValueV::Null), assign_st(st2, n, v, visibility_of(n))),
                        other => (other, st2),
                    }
                },
                FlowV::Val(other) => (
                    fail("computed assignment name must be a string, got "@ + kind_name(kind_of(other)), name.span),
                    st1,
                ),
                other => (other, st1),
            }
        },
        StmtKindV::Return(value) => {
            let (f, st1) = ev_expr(env, fuel, value, st);
            match f {
                FlowV::Val(v) => (FlowV::Ret(v), st1),
                other => (other, st1),
            }
        },
        StmtKindV::While { .. } => ev_repeat(env, fuel, s, st),
        StmtKindV::Loop { .. } => ev_repeat(env, fuel, s, st),
        StmtKindV::Break => (FlowV::Brk, st),
        StmtKindV::Expression(x) => {
            let (f, st1) = ev_expr(env, fuel, x, st);
            match f {
                FlowV::Val(v) => (FlowV::Val(v), statement_effect(x, v, st1)),
                other => (other, st1),
            }
        },
    }
}

/// The iterations of a `while` or `loop` statement; each takes one unit of
/// fuel.
pub open spec fn ev_repeat(env: EnvV, fuel: nat, s: StmtV, st: StV) -> (FlowV, StV)
    decreases fuel, s, 0int, 0int,
{
    if fuel == 0 {
        (FlowV::Exhausted, st)
    } else {
        match s.kind {
            StmtKindV::While { condition, body } => {
                let (f, st1) = ev_expr(env, fuel, condition, st);
                match f {
                    FlowV::Val(ValueV::Boolean(true)) => {
                        let (g, st2) = ev_block(env, fuel, body, 0, ValueV::Null, st1);
                        match g {
                            FlowV::Val(_) => ev_repeat(env, (fuel - 1) as nat, s, st2),
                            FlowV::Brk => (FlowV::Val(ValueV::Null), st2),
                            other => (other, st2),
                        }
                    },
                    FlowV::Val(ValueV::Boolean(false)) => (FlowV::Val(ValueV::Null), st1),
                    FlowV::Val(v) => (fail(operand_error("boolean"@, v), condition.span), st1),
                    other => (other, st1),
                }
            },
            StmtKindV::Loop { body } => {
                let (g, st2) = ev_block(env, fuel, body, 0, ValueV::Null, st);
                match g {
                    FlowV::Val(_) => ev_repeat(env, (fuel - 1) as nat, s, st2),
                    FlowV::Brk => (FlowV::Val(ValueV::Null), st2),
                    other => (other, st2),
                }
            },
            _ => (FlowV::Val(ValueV::Null), st),
        }
    }
}

/// Runs the statements of a block from index `i` on; `last` is the value
/// the statements before left.
pub open spec fn ev_block(env: EnvV, fuel: nat, ss: Seq<StmtV>, i: int, last: ValueV, st: StV) -> (FlowV, StV)
    decreases fuel, ss, 0int, ss.len() - i,
{
    if i < 0 || i >= ss.len() {
        (FlowV::Val(last), st)
    } else {
        let (f, st1) = ev_stmt(env, fuel, ss[i], st);
        match f {
            FlowV::Val(v) => ev_block(env, fuel, ss, i + 1, v, st1),
            other => (other, st1),
        }
    }
}

/// What `str::parse::<serde_json::Number>` makes of a number literal: the
/// number, or the text of the parse error.
pub uninterp spec fn number_parse_of(text: Seq<char>) -> Result<serde_json::Number, Seq<char>>;

/// Parses a number literal with `str::parse::<serde_json::Number>`. The
/// contract claims only that the outcome (the number, or the displayed
/// error) is a function of the text, named `number_parse_of`; which texts
/// serde_json accepts is left unsaid.
#[verifier::external_body]
fn parse_number(text: &str) -> (r: Result<serde_json::Number, String>)
    ensures
        match r {
            Ok(n) => number_parse_of(text@) == Ok::<serde_json::Number, Seq<char>>(n),
            Err(m) => number_parse_of(text@) == Err::<serde_json::Number, Seq<char>>(m@),
        },
{
    match text.parse::<serde_json::Number>() {
        Ok(n) => Ok(n),
        Err(e) => Err(e.to_string()),
    }
}

// ---------------------------------------------------------------------------
// The executable evaluator
// ---------------------------------------------------------------------------

/// What a run asks of its host (see `NeedV`).
pub enum Need {
    Host(String, Vec<Value>),
    Fetch(HttpRequest),
    Float(Evaluated),
}

impl View for Need {
    type V = NeedV;

    open spec fn view(&self) -> NeedV {
        match self {
            Need::Host(name, args) => NeedV::Host(name@, values_view(args@)),
            Need::Fetch(r) => NeedV::Fetch(r@),
            Need::Float(x) => NeedV::Float(x@),
        }
    }
}

enum Flow {
    Val(Value),
    Ret(Value),
    Brk,
    Fail(ExecutionError),
    Need(Need),
    Exhausted,
}

impl View for Flow {
    type V = FlowV;

    closed spec fn view(&self) -> FlowV {
        match self {
            Flow::Val(v) => FlowV::Val(v@),
            Flow::Ret(v) => FlowV::Ret(v@),
            Flow::Brk => FlowV::Brk,
            Flow::Fail(e) => FlowV::Fail(e@),
            Flow::Need(n) => FlowV::Need(n@),
            Flow::Exhausted => FlowV::Exhausted,
        }
    }
}

pub open spec fn reply_view(r: Result<Value, ExecutionError>) -> Result<ValueV, ErrV> {
    match r {
        Ok(v) => Ok(v@),
        Err(e) => Err(e@),
    }
}

pub open spec fn replies_view(s: Seq<Result<Value, ExecutionError>>) -> Seq<Result<ValueV, ErrV>> {
    Seq::new(s.len(), |i: int| reply_view(s[i]))
}

struct Env<'a> {
    functions: &'a Vec<FunctionDefinition>,
    hosts: &'a Vec<String>,
    policy: &'a HttpPolicy,
    replies: &'a Vec<Result<Value, ExecutionError>>,
}

impl<'a> View for Env<'a> {
    type V = EnvV;

    closed spec fn view(&self) -> EnvV {
        EnvV {
            functions: functions_view(self.functions@),
            hosts: crate::engine::host_names(self.hosts@),
            policy: self.policy@,
            replies: replies_view(self.replies@),
        }
    }
}

struct State {
    frame: Scope,
    shared: SharedScope,
    next: usize,
    warnings: Vec<Diagnostic>,
}

impl View for State {
    type V = StV;

    closed spec fn view(&self) -> StV {
        StV { frame: self.frame@, shared: self.shared@, next: self.next as nat, warnings: diagnostics_view(self.warnings@) }
    }
}

proof fn lemma_values_push(s: Seq<Value>, x: Value)
    ensures
        values_view(s.push(x)) == values_view(s).push(x@),
{
    lemma_values_view(s);
    lemma_values_view(s.push(x));
    assert(values_view(s.push(x)) =~= values_view(s).push(x@));
}

fn val(v: Value) -> (r: Flow)
    ensures
        r@ == FlowV::Val(v@),
{
    Flow::Val(v)
}

fn null_value() -> (r: Value)
    ensures
        r@ == ValueV::Null,
{
    proof {
        lemma_value_view(Value::Null);
    }
    Value::Null
}

fn bool_value(b: bool) -> (r: Value)
    ensures
        r@ == ValueV::Boolean(b),
{
    proof {
        lemma_value_view(Value::Boolean(b));
    }
    Value::Boolean(b)
}

fn string_value(s: String) -> (r: Value)
    ensures
        r@ == ValueV::Str(s@),
{
    proof {
        lemma_value_view(Value::String(s));
    }
    Value::String(s)
}

fn array_value(items: Vec<Value>) -> (r: Value)
    ensures
        r@ == ValueV::Array(values_view(items@)),
{
    let r = Value::Array(items);
    proof {
        lemma_value_view(r);
        lemma_values_view(items@);
    }
    r
}

fn object_value(o: Object) -> (r: Value)
    ensures
        r@ == ValueV::Object(o@),
{
    let r = Value::Object(o);
    proof {
        lemma_value_view(r);
    }
    r
}

/// An error at `span` with the message `a`, then `b`.
fn error2(a: &str, b: &str, span: Span) -> (r: ExecutionError)
    ensures
        r@ == (a@ + b@, Some(span)),
{
    let mut m = String::new();
    string_push_str(&mut m, a);
    string_push_str(&mut m, b);
    proof {
        assert(m@ =~= a@ + b@);
    }
    ExecutionError::from_message(m, Some(span))
}

/// An error at `span` with the message `a`, then `b`, then `c`.
fn error3(a: &str, b: &str, c: &str, span: Span) -> (r: ExecutionError)
    ensures
        r@ == (a@ + b@ + c@, Some(span)),
{
    let mut m = String::new();
    string_push_str(&mut m, a);
    string_push_str(&mut m, b);
    string_push_str(&mut m, c);
    proof {
        assert(m@ =~= a@ + b@ + c@);
    }
    ExecutionError::from_message(m, Some(span))
}

fn failure(message: &str, span: Span) -> (r: Flow)
    ensures
        r@ == fail(message@, span),
{
    Flow::Fail(ExecutionError::new(message, Some(span)))
}

fn failure3(a: &str, b: &str, c: &str, span: Span) -> (r: Flow)
    ensures
        r@ == fail(a@ + b@ + c@, span),
{
    Flow::Fail(error3(a, b, c, span))
}

/// `operand_error(expected, v)` at `span`.
fn operand_failure(expected: &str, v: &Value, span: Span) -> (r: Flow)
    ensures
        r@ == fail(operand_error(expected@, v@), span),
{
    let mut m = String::new();
    string_push_str(&mut m, "expected ");
    string_push_str(&mut m, expected);
    string_push_str(&mut m, ", got ");
    string_push_str(&mut m, v.kind().name());
    Flow::Fail(ExecutionError::from_message(m, Some(span)))
}

/// Asks for `need` (see `ask`).
fn request(env: &Env, need: Need, span: Span, st: &mut State) -> (r: Flow)
    ensures
        (r@, final(st)@) == ask(env@, need@, span, old(st)@),
{
    if st.next < env.replies.len() {
        let i = st.next;
        st.next = st.next + 1;
        match &env.replies[i] {
            Ok(v) => Flow::Val(v.duplicate()),
            Err(e) => {
                let span = match e.span() {
                    Some(s) => Some(s),
                    None => Some(span),
                };
                Flow::Fail(ExecutionError::new(e.message(), span))
            },
        }
    } else {
        Flow::Need(need)
    }
}

fn from_outcome(r: Result<Value, ExecutionError>) -> (f: Flow)
    ensures
        match r {
            Ok(v) => f@ == FlowV::Val(v@),
            Err(e) => f@ == FlowV::Fail(e@),
        },
{
    match r {
        Ok(v) => Flow::Val(v),
        Err(e) => Flow::Fail(e),
    }
}

/// Calls the host function `name` (see `host_call`).
fn call_host(env: &Env, name: String, args: Vec<Value>, span: Span, st: &mut State) -> (r: Flow)
    ensures
        (r@, final(st)@) == host_call(env@, name@, values_view(args@), span, old(st)@),
{
    if crate::engine::has_name(env.hosts.as_slice(), name.as_str()) {
        request(env, Need::Host(name, args), span, st)
    } else {
        failure3("unlinked function `", name.as_str(), "`", span)
    }
}

/// Takes the reply to a fetch (see `fetched`).
fn fetch_reply(env: &Env, req: HttpRequest, span: Span, st: &mut State) -> (r: Flow)
    ensures
        (r@, final(st)@) == fetched(env@, req@, span, old(st)@),
{
    if st.next < env.replies.len() {
        let i = st.next;
        st.next = st.next + 1;
        match &env.replies[i] {
            Ok(v) => {
                proof {
                    lemma_value_view(*v);
                }
                match v {
                    Value::Response(resp) => match env.policy.validate_response(resp.body()) {
                        Ok(()) => Flow::Val(v.duplicate()),
                        Err(e) => Flow::Fail(ExecutionError::new(e.message(), Some(span))),
                    },
                    _ => Flow::Val(v.duplicate()),
                }
            },
            Err(e) => Flow::Fail(ExecutionError::new(e.message(), Some(span))),
        }
    } else {
        Flow::Need(Need::Fetch(req))
    }
}

/// `extend` and `fetch` (see `core_call`).
fn call_core(env: &Env, name: &str, args: Vec<Value>, span: Span, st: &mut State) -> (r: Flow)
    ensures
        (r@, final(st)@) == core_call(env@, name@, values_view(args@), span, old(st)@),
{
    proof {
        lemma_values_view(args@);
        if args@.len() > 0 {
            lemma_value_view(args@[0]);
        }
    }
    if str_eq(name, "extend") {
        if args.len() == 2 && (match &args[0] {
            Value::Array(_) => true,
            _ => false,
        }) {
            proof {
                lemma_value_view(args@[0]);
            }
            let mut rest = args;
            let receiver = rest.remove(0);
            proof {
                lemma_values_view(rest@);
                assert(values_view(rest@) =~= values_view(args@).drop_first());
            }
            let r = from_outcome(crate::value::extend(receiver, rest, span));
            assert(r@ == core_call(env@, name@, values_view(args@), span, old(st)@).0);
            r
        } else if args.len() == 1 {
            proof {
                lemma_value_view(args@[0]);
            }
            match &args[0] {
                Value::Object(o) => {
                    st.frame.extend(&mut st.shared, o);
                    let r = val(args[0].duplicate());
                    assert(r@ == core_call(env@, name@, values_view(args@), span, old(st)@).0);
                    r
                },
                _ => {
                    let r = failure("`extend` expects an object", span);
                    assert(r@ == core_call(env@, name@, values_view(args@), span, old(st)@).0);
                    r
                },
            }
        } else {
            let r = failure("`extend` expects exactly one object argument", span);
            assert(r@ == core_call(env@, name@, values_view(args@), span, old(st)@).0);
            r
        }
    } else if str_eq(name, "fetch") {
        match crate::value::fetch_request(args, span) {
            Err(e) => {
                let r = Flow::Fail(e);
                assert(r@ == core_call(env@, name@, values_view(args@), span, old(st)@).0);
                r
            },
            Ok(req) => match env.policy.validate_url(req.url()) {
                Err(e) => {
                    let r = Flow::Fail(ExecutionError::new(e.message(), Some(span)));
                    assert(r@ == core_call(env@, name@, values_view(args@), span, old(st)@).0);
                    r
                },
                Ok(()) => fetch_reply(env, req, span, st),
            },
        }
    } else {
        let r = failure3("unknown core function `", name, "`", span);
        assert(r@ == core_call(env@, name@, values_view(args@), span, old(st)@).0);
        r
    }
}

/// The builtins on values computed here (see `value_builtin`); `None` for
/// the others.
fn call_value_builtin(name: &str, t: Value, args: Vec<Value>, span: Span) -> (r: Option<Result<Value, ExecutionError>>)
    ensures
        match value_builtin(name@, t@, values_view(args@)) {
            Some(o) => r matches Some(x) && crate::value::outcome_matches(x, o, span),
            None => r is None,
        },
{
    proof {
        lemma_values_view(args@);
    }
    if str_eq(name, "keys") {
        Some(crate::value::keys(t, args, span))
    } else if str_eq(name, "values") {
        Some(crate::value::values(t, args, span))
    } else if str_eq(name, "has") {
        Some(crate::value::has(t, args, span))
    } else if str_eq(name, "nullcheck") {
        Some(crate::value::nullcheck(t, args, span))
    } else if str_eq(name, "unwrap_or") {
        Some(crate::value::unwrap_or(t, args, span))
    } else if str_eq(name, "flatten") {
        Some(crate::value::flatten(t, args, span))
    } else if str_eq(name, "first") {
        Some(crate::value::first(t, args, span))
    } else if str_eq(name, "last") {
        Some(crate::value::last(t, args, span))
    } else if str_eq(name, "extend") {
        Some(crate::value::extend(t, args, span))
    } else if str_eq(name, "starts_with") {
        Some(crate::value::starts_with(t, args, span))
    } else if str_eq(name, "replace") {
        Some(crate::value::replace(t, args, span))
    } else if str_eq(name, "range") {
        Some(crate::value::range(t, args, span))
    } else if str_eq(name, "take") {
        Some(crate::value::take(t, args, span))
    } else if str_eq(name, "zip") {
        Some(crate::value::zip(t, args, span))
    } else if str_eq(name, "unique") {
        Some(crate::value::unique(t, args, span))
    } else if str_eq(name, "len") {
        Some(crate::value::len(t, args, span))
    } else if str_eq(name, "trim") {
        Some(crate::value::trim(t, args, span))
    } else if str_eq(name, "ensure_suffix") {
        Some(crate::value::ensure_suffix(t, args, span))
    } else if str_eq(name, "join") {
        Some(crate::value::join(t, args, span))
    } else if str_eq(name, "urlencode") {
        Some(crate::value::urlencode(t, args, span))
    } else if str_eq(name, "status") {
        Some(crate::value::status(t, args, span))
    } else {
        None
    }
}

/// Appends how `v` reads inside an interpolated string (see
/// `interp_text`).
fn interpolate(out: &mut String, v: &Value, span: Span) -> (r: Result<(), ExecutionError>)
    ensures
        match interp_text(v@) {
            Ok(t) => r is Ok && final(out)@ == old(out)@ + t,
            Err(m) => r matches Err(e) && e@ == (m, Some(span)),
        },
{
    proof {
        lemma_value_view(*v);
    }
    match v {
        Value::Null => {
            string_push_str(out, "null");
            Ok(())
        },
        Value::Boolean(b) => {
            string_push_str(out, if *b { "true" } else { "false" });
            Ok(())
        },
        Value::Number(n) => {
            let t = crate::value::number_text(n);
            string_push_str(out, t.as_str());
            Ok(())
        },
        Value::String(s) => {
            string_push_str(out, s.as_str());
            Ok(())
        },
        _ => Err(error2("cannot interpolate ", v.kind().name(), span)),
    }
}

/// `receiver[index]` (see `subscript`).
fn subscript_value(rv: &Value, iv: &Value, span: Span) -> (r: Result<Value, ExecutionError>)
    ensures
        crate::value::outcome_matches(r, subscript(rv@, iv@), span),
{
    proof {
        lemma_value_view(*rv);
        lemma_value_view(*iv);
    }
    match iv {
        Value::Number(n) => {
            let u = crate::value::number_as_u64(n);
            let fits = match u {
                Some(x) => x as u128 <= usize::MAX as u128,
                None => false,
            };
            if fits {
                let x = u.unwrap();
                let i = x as usize;
                match rv {
                    Value::Array(items) => {
                        proof {
                            lemma_values_view(items@);
                        }
                        if i < items.len() {
                            Ok(items[i].duplicate())
                        } else {
                            Ok(null_value())
                        }
                    },
                    _ => {
                        let mut m = String::new();
                        string_push_str(&mut m, "cannot index ");
                        string_push_str(&mut m, rv.kind().name());
                        string_push_str(&mut m, " with integer index ");
                        push_decimal(&mut m, i);
                        proof {
                            assert(m@ =~= "cannot index "@ + kind_name(kind_of(rv@)) + " with integer index "@ + decimal(x as nat));
                        }
                        Err(ExecutionError::from_message(m, Some(span)))
                    },
                }
            } else {
                let t = crate::value::number_text(n);
                Err(error2("subscript index must be a valid non-negative integer, got number ", t.as_str(), span))
            }
        },
        Value::String(k) => match rv {
            Value::Object(o) => match o.get(k.as_str()) {
                Some(v) => Ok(v.duplicate()),
                None => Ok(null_value()),
            },
            _ => {
                let mut m = String::new();
                string_push_str(&mut m, "cannot index ");
                string_push_str(&mut m, rv.kind().name());
                string_push_str(&mut m, " with string key `");
                string_push_str(&mut m, k.as_str());
                string_push_str(&mut m, "`");
                proof {
                    assert(m@ =~= "cannot index "@ + kind_name(kind_of(rv@)) + " with string key `"@ + k@ + "`"@);
                }
                Err(ExecutionError::from_message(m, Some(span)))
            },
        },
        _ => Err(error2("subscript index must be a number or a string, got ", iv.kind().name(), span)),
    }
}

pub open spec fn path_view(p: Seq<usize>) -> Seq<nat> {
    Seq::new(p.len(), |i: int| p[i] as nat)
}

/// Where a required value has nothing (see `first_missing`).
fn missing_path(v: &Value) -> (r: Option<Vec<usize>>)
    ensures
        match first_missing(v@) {
            Some(p) => r matches Some(x) && path_view(x@) == p,
            None => r is None,
        },
    decreases v, 1int,
{
    proof {
        lemma_value_view(*v);
    }
    match v {
        Value::Null => {
            let r: Vec<usize> = Vec::new();
            proof {
                assert(path_view(r@) =~= Seq::<nat>::empty());
            }
            Some(r)
        },
        Value::Array(items) => {
            proof {
                lemma_values_view(items@);
            }
            if items.len() == 0 {
                let r: Vec<usize> = Vec::new();
                proof {
                    assert(path_view(r@) =~= Seq::<nat>::empty());
                }
                Some(r)
            } else {
                missing_in(items)
            }
        },
        _ => None,
    }
}

fn missing_in(items: &Vec<Value>) -> (r: Option<Vec<usize>>)
    ensures
        match first_missing_in(values_view(items@), 0) {
            Some(p) => r matches Some(x) && path_view(x@) == p,
            None => r is None,
        },
    decreases items, 0int,
{
    let ghost iv = values_view(items@);
    proof {
        lemma_values_view(items@);
    }
    let mut i: usize = 0;
    while i < items.len()
        invariant
            iv == values_view(items@),
            iv.len() == items@.len(),
            i <= items@.len(),
            first_missing_in(iv, 0) == first_missing_in(iv, i as nat),
        decreases items@.len() - i,
    {
        proof {
            lemma_values_view(items@);
            assert(decreases_to!(items => items@));
            assert(decreases_to!(items@ => items@[i as int]));
        }
        match missing_path(&items[i]) {
            Some(p) => {
                let mut out: Vec<usize> = Vec::new();
                out.push(i);
                let mut k: usize = 0;
                while k < p.len()
                    invariant
                        k <= p@.len(),
                        out@.len() == k + 1,
                        out@[0] == i,
                        forall|j: int| 0 <= j < k ==> out@[j + 1] == p@[j],
                    decreases p@.len() - k,
                {
                    out.push(p[k]);
                    k = k + 1;
                }
                proof {
                    assert(path_view(out@) =~= seq![i as nat].add(path_view(p@)));
                    assert(iv[i as int] == items@[i as int]@);
                    assert(first_missing_in(iv, i as nat) == Some(seq![i as nat].add(path_view(p@))));
                }
                return Some(out);
            },
            None => {
                proof {
                    assert(iv[i as int] == items@[i as int]@);
                    assert(first_missing_in(iv, i as nat) == first_missing_in(iv, (i + 1) as nat));
                }
            },
        }
        i = i + 1;
    }
    None
}

/// The text of an index path (see `path_text`).
fn push_path(out: &mut String, p: &Vec<usize>)
    ensures
        final(out)@ == old(out)@ + path_text(path_view(p@)),
{
    let ghost start = old(out)@;
    let mut i: usize = 0;
    proof {
        assert(path_view(p@.take(0)) =~= Seq::<nat>::empty());
    }
    while i < p.len()
        invariant
            i <= p@.len(),
            out@ == start + path_text(path_view(p@.take(i as int))),
        decreases p@.len() - i,
    {
        proof {
            assert(path_view(p@.take(i + 1)).drop_last() =~= path_view(p@.take(i as int)));
            assert(path_view(p@.take(i + 1)).last() == p@[i as int] as nat);
            assert(path_view(p@.take(1)) =~= seq![p@[0] as nat]);
        }
        if i > 0 {
            string_push_str(out, ".");
        }
        push_decimal(out, p[i]);
        i = i + 1;
    }
    proof {
        assert(p@.take(i as int) =~= p@);
    }
}

/// The message of a required expression that produced nothing (see
/// `required_message`).
fn required_failure(inner: &Expression, p: &Vec<usize>, span: Span) -> (r: Flow)
    ensures
        r@ == fail(required_message(expr_view(*inner), path_view(p@)), span),
{
    let mut m = String::new();
    string_push_str(&mut m, "required `");
    match &inner.kind {
        ExpressionKind::MethodCall { name, multiple, arguments, .. } => {
            string_push_str(&mut m, name.as_str());
            if *multiple {
                string_push_str(&mut m, "@");
            }
            string_push_str(&mut m, "` operation");
            proof {
                crate::ast::lemma_exprs_len(arguments@);
                if arguments@.len() > 0 {
                    crate::ast::lemma_exprs_index(arguments@, 0);
                }
            }
            if arguments.len() > 0 {
                match &arguments[0].kind {
                    ExpressionKind::String(a) => {
                        string_push_str(&mut m, " `");
                        string_push_str(&mut m, a.as_str());
                        string_push_str(&mut m, "`");
                    },
                    _ => {},
                }
            }
        },
        _ => {
            string_push_str(&mut m, "unknown");
            string_push_str(&mut m, "` operation");
        },
    }
    string_push_str(&mut m, " produced no result");
    if p.len() > 0 {
        string_push_str(&mut m, " at item index ");
        push_path(&mut m, p);
    }
    proof {
        let (op, arg) = required_operation(expr_view(*inner));
        assert(m@ =~= required_message(expr_view(*inner), path_view(p@)));
    }
    Flow::Fail(ExecutionError::from_message(m, Some(span)))
}

/// `assertEq` (see `assert_eq_outcome`).
fn assert_eq_call(args: &Vec<Value>, span: Span) -> (r: Result<Value, ExecutionError>)
    ensures
        crate::value::outcome_matches(r, assert_eq_outcome(values_view(args@)), span),
{
    proof {
        lemma_values_view(args@);
        if args@.len() == 3 {
            lemma_value_view(args@[2]);
        }
    }
    let message_ok = args.len() == 2 || (args.len() == 3 && match &args[2] {
        Value::String(_) => true,
        _ => false,
    });
    if message_ok {
        if crate::value::value_eq(&args[0], &args[1]) {
            Ok(null_value())
        } else {
            let mut m = String::new();
            if args.len() == 3 {
                match &args[2] {
                    Value::String(t) => {
                        string_push_str(&mut m, t.as_str());
                        string_push_str(&mut m, ": ");
                    },
                    _ => {},
                }
            }
            string_push_str(&mut m, "assertEq expected ");
            let e = args[1].debug_text();
            string_push_str(&mut m, e.as_str());
            string_push_str(&mut m, ", got ");
            let a = args[0].debug_text();
            string_push_str(&mut m, a.as_str());
            proof {
                let vs = values_view(args@);
                assert(m@ =~= (if vs.len() == 3 { vs[2]->Str_0 + ": "@ } else { Seq::<char>::empty() })
                    + "assertEq expected "@ + debug_of(vs[1]) + ", got "@ + debug_of(vs[0]));
            }
            Err(ExecutionError::from_message(m, Some(span)))
        }
    } else if args.len() == 3 {
        Err(error2("`assertEq` message must be a string, got ", args[2].kind().name(), span))
    } else {
        Err(ExecutionError::new("`assertEq` expects two values and an optional message", Some(span)))
    }
}

/// Where the first script function named `name` is (see `function_named`).
fn find_function(fs: &Vec<FunctionDefinition>, name: &str) -> (r: Option<usize>)
    ensures
        match function_named(functions_view(fs@), name@, 0) {
            Some(f) => r matches Some(k) && k < fs@.len() && functions_view(fs@)[k as int] == f,
            None => r is None,
        },
{
    let ghost fv = functions_view(fs@);
    proof {
        lemma_functions_view(fs@);
    }
    let mut i: usize = 0;
    while i < fs.len()
        invariant
            fv == functions_view(fs@),
            fv.len() == fs@.len(),
            forall|k: int| 0 <= k < fs@.len() ==> fv[k] == crate::ast::function_view(#[trigger] fs@[k]),
            i <= fs@.len(),
            function_named(fv, name@, 0) == function_named(fv, name@, i as nat),
        decreases fs@.len() - i,
    {
        if str_eq(fs[i].name.as_str(), name) {
            return Some(i);
        }
        i = i + 1;
    }
    None
}

pub proof fn lemma_functions_view(s: Seq<FunctionDefinition>)
    ensures
        functions_view(s).len() == s.len(),
        forall|k: int| 0 <= k < s.len() ==> functions_view(s)[k] == crate::ast::function_view(#[trigger] s[k]),
    decreases s.len(),
{
    if s.len() > 0 {
        lemma_functions_view(s.drop_last());
        assert forall|k: int| 0 <= k < s.len() implies functions_view(s)[k] == crate::ast::function_view(#[trigger] s[k]) by {
            if k < s.len() - 1 {
                assert(s.drop_last()[k] == s[k]);
            }
        }
    }
}

fn number_value(n: serde_json::Number) -> (r: Value)
    ensures
        r@ == ValueV::Number(n),
{
    let r = Value::Number(n);
    proof {
        lemma_value_view(r);
    }
    r
}

fn empty_values() -> (r: Vec<Value>)
    ensures
        values_view(r@) == Seq::<ValueV>::empty(),
{
    let r: Vec<Value> = Vec::new();
    proof {
        lemma_values_view(r@);
        assert(values_view(r@) =~= Seq::<ValueV>::empty());
    }
    r
}

pub open spec fn list_matches(r: Result<Vec<Value>, Flow>, o: Result<Seq<ValueV>, FlowV>) -> bool {
    match o {
        Ok(vs) => r matches Ok(x) && values_view(x@) == vs,
        Err(f) => r matches Err(g) && g@ == f,
    }
}

/// An operator's outcome (see `settle`).
fn settle_op(env: &Env, r: Result<Evaluated, ExecutionError>, Ghost(o): Ghost<Result<EvaluatedV, Seq<char>>>, span: Span, st: &mut State) -> (f: Flow)
    requires
        crate::operators::evaluated_matches(r, o, span),
    ensures
        (f@, final(st)@) == settle(env@, o, span, old(st)@),
{
    match r {
        Err(e) => Flow::Fail(e),
        Ok(Evaluated::Value(v)) => Flow::Val(v),
        Ok(other) => request(env, Need::Float(other), span, st),
    }
}

/// `!` and `-` (see `unary_outcome`).
fn eval_unary(env: &Env, op: UnaryOperator, v: Value, span: Span, st: &mut State) -> (f: Flow)
    ensures
        (f@, final(st)@) == settle(env@, unary_outcome(op, v@), span, old(st)@),
{
    proof {
        lemma_value_view(v);
    }
    match op {
        UnaryOperator::Negate => match v {
            Value::Number(n) => {
                let least = match crate::value::number_as_i64(&n) {
                    Some(x) => x == i64::MIN,
                    None => false,
                };
                if least {
                    request(env, Need::Float(Evaluated::FloatNegate(n)), span, st)
                } else {
                    let w = number_value(n);
                    let r = crate::operators::unary(op, w, span);
                    settle_op(env, r, Ghost(spec_unary(op, ValueV::Number(n))), span, st)
                }
            },
            other => {
                let ghost ov = other@;
                let r = crate::operators::unary(op, other, span);
                settle_op(env, r, Ghost(spec_unary(op, ov)), span, st)
            },
        },
        UnaryOperator::Not => {
            let ghost ov = v@;
            let r = crate::operators::unary(op, v, span);
            settle_op(env, r, Ghost(spec_unary(op, ov)), span, st)
        },
    }
}

/// The visibility a computed name gets (see `visibility_of`).
fn visibility_of_name(name: &str) -> (r: Visibility)
    ensures
        r == visibility_of(name@),
{
    let cs = crate::text::chars_of(name);
    if cs.len() > 0 && cs[0] == '_' {
        Visibility::Private
    } else {
        Visibility::Public
    }
}

/// The effect of an expression statement (see `statement_effect`).
fn apply_effect(x: &Expression, v: &Value, st: &mut State)
    ensures
        final(st)@ == statement_effect(expr_view(*x), v@, old(st)@),
{
    match &x.kind {
        ExpressionKind::MethodCall { receiver, name, .. } => {
            if str_eq(name.as_str(), "extend") {
                match &receiver.kind {
                    ExpressionKind::Variable(b) => {
                        proof {
                            assert(expr_view(**receiver).kind == ExprKindV::Variable(b@));
                        }
                        let vis = visibility_of_name(b.as_str());
                        st.frame.assign(&mut st.shared, b.as_str(), v.duplicate(), vis);
                    },
                    _ => {
                        proof {
                            assert(!(expr_view(**receiver).kind is Variable));
                        }
                    },
                }
            }
        },
        _ => {},
    }
}

/// The name a call goes by (see `call_name`).
fn call_name_of(e: &Expression) -> (r: String)
    ensures
        r@ == call_name(expr_view(*e)),
{
    match &e.kind {
        ExpressionKind::MethodCall { name, multiple, .. } => {
            let mut n = name.clone();
            if *multiple {
                string_push_str(&mut n, "@");
            }
            n
        },
        ExpressionKind::FunctionCall { name, .. } => name.clone(),
        _ => String::new(),
    }
}

/// Binds the parameters of a call, privately, in order (see `bound`).
fn bind_parameters(params: &Vec<String>, vs: &Vec<Value>, st: &mut State)
    requires
        params@.len() == vs@.len(),
    ensures
        final(st)@ == bound(old(st)@, strings_view(params@), values_view(vs@)),
{
    let ghost pv = strings_view(params@);
    let ghost av = values_view(vs@);
    let ghost start = st@;
    proof {
        crate::ast::lemma_strings_len(params@);
        lemma_values_view(vs@);
        assert(pv.take(0) =~= Seq::<Seq<char>>::empty());
    }
    let mut i: usize = 0;
    while i < params.len()
        invariant
            pv == strings_view(params@),
            av == values_view(vs@),
            pv.len() == params@.len(),
            av.len() == vs@.len(),
            params@.len() == vs@.len(),
            i <= params@.len(),
            st@ == bound(start, pv.take(i as int), av.take(i as int)),
        decreases params@.len() - i,
    {
        proof {
            crate::ast::lemma_strings_index(params@, i as int);
            lemma_values_view(vs@);
            assert(pv.take(i + 1).drop_last() =~= pv.take(i as int));
            assert(av.take(i + 1).drop_last() =~= av.take(i as int));
        }
        st.frame.assign(&mut st.shared, params[i].as_str(), vs[i].duplicate(), Visibility::Private);
        i = i + 1;
    }
    proof {
        assert(pv.take(i as int) =~= pv);
        assert(av.take(i as int) =~= av);
    }
}

/// The arity error of a call (see `arity_message`).
fn arity_failure(name: &str, expected: usize, got: usize, span: Span) -> (r: Flow)
    ensures
        r@ == fail(arity_message(name@, expected as nat, got as nat), span),
{
    let mut m = String::new();
    string_push_str(&mut m, "function `");
    string_push_str(&mut m, name);
    string_push_str(&mut m, "` expects ");
    push_decimal(&mut m, expected);
    string_push_str(&mut m, " argument");
    if expected != 1 {
        string_push_str(&mut m, "s");
    }
    string_push_str(&mut m, ", got ");
    push_decimal(&mut m, got);
    proof {
        assert(m@ =~= arity_message(name@, expected as nat, got as nat));
    }
    Flow::Fail(ExecutionError::from_message(m, Some(span)))
}

/// A value builtin (see `value_builtin`); an unknown name gives the target
/// and arguments back.
fn value_builtin_or_back(name: &str, t: Value, args: Vec<Value>, span: Span) -> (r: Result<Result<Value, ExecutionError>, (Value, Vec<Value>)>)
    ensures
        match value_builtin(name@, t@, values_view(args@)) {
            Some(o) => r matches Ok(x) && crate::value::outcome_matches(x, o, span),
            None => r matches Err(back) && back.0@ == t@ && values_view(back.1@) == values_view(args@),
        },
{
    let known = str_eq(name, "keys") || str_eq(name, "values") || str_eq(name, "has") || str_eq(name, "nullcheck")
        || str_eq(name, "unwrap_or") || str_eq(name, "flatten") || str_eq(name, "first") || str_eq(name, "last")
        || str_eq(name, "extend") || str_eq(name, "starts_with") || str_eq(name, "replace") || str_eq(name, "range")
        || str_eq(name, "take") || str_eq(name, "zip") || str_eq(name, "unique") || str_eq(name, "len")
        || str_eq(name, "trim") || str_eq(name, "ensure_suffix") || str_eq(name, "join") || str_eq(name, "urlencode")
        || str_eq(name, "status");
    if known {
        match call_value_builtin(name, t, args, span) {
            Some(x) => Ok(x),
            None => Ok(Err(ExecutionError::new("", Some(span)))),
        }
    } else {
        Err((t, args))
    }
}

/// Evaluates `e` (see `ev_expr`).
#[verifier::rlimit(80)]
fn eval_expr(env: &Env, fuel: u64, e: &Expression, st: &mut State) -> (r: Flow)
    ensures
        (r@, final(st)@) == ev_expr(env@, fuel as nat, expr_view(*e), old(st)@),
    decreases fuel, e, 3int, 0int,
{
    let span = e.span;
    match &e.kind {
        ExpressionKind::Null => val(null_value()),
        ExpressionKind::Boolean(b) => val(bool_value(*b)),
        ExpressionKind::Number(text) => match parse_number(text.as_str()) {
            Ok(n) => val(number_value(n)),
            Err(m) => Flow::Fail(error2("invalid number: ", m.as_str(), span)),
        },
        ExpressionKind::String(s) => val(string_value(s.clone())),
        ExpressionKind::InterpolatedString(parts) => eval_parts(env, fuel, parts, st),
        ExpressionKind::Array(items) => match eval_list(env, fuel, items, 0, empty_values(), st) {
            Ok(vs) => val(array_value(vs)),
            Err(f) => f,
        },
        ExpressionKind::Object(fields) => eval_fields(env, fuel, fields, st),
        ExpressionKind::Variable(name) => match st.frame.get(&st.shared, name.as_str()) {
            Some(v) => val(v),
            None => failure3("unresolved value `", name.as_str(), "`", span),
        },
        ExpressionKind::Identifier(name) => match st.frame.get(&st.shared, name.as_str()) {
            Some(v) => val(v),
            None => failure3("unresolved value `", name.as_str(), "`", span),
        },
        ExpressionKind::FunctionCall { .. } => eval_call(env, fuel, e, st),
        ExpressionKind::MethodCall { .. } => eval_call(env, fuel, e, st),
        ExpressionKind::QualifiedFunctionCall { module, name, arguments } => match eval_list(env, fuel, arguments, 0, empty_values(), st) {
            Ok(vs) => {
                let mut full = module.clone();
                string_push_str(&mut full, ".");
                string_push_str(&mut full, name.as_str());
                call_host(env, full, vs, span, st)
            },
            Err(f) => f,
        },
        ExpressionKind::CoreCall { name, arguments } => match eval_list(env, fuel, arguments, 0, empty_values(), st) {
            Ok(vs) => call_core(env, name.as_str(), vs, span, st),
            Err(f) => f,
        },
        ExpressionKind::Lambda { .. } => failure("lambda cannot be used as a value", span),
        ExpressionKind::FunctionalBlock { receiver, method, body } => {
            let f = eval_expr(env, fuel, receiver, st);
            match f {
                Flow::Val(rv) => if !str_eq(method.as_str(), "map") {
                    failure3("unsupported functional block `", method.as_str(), "`", span)
                } else {
                    proof {
                        lemma_value_view(rv);
                    }
                    match rv {
                        Value::Array(items) => {
                            proof {
                                lemma_values_view(items@);
                            }
                            eval_map_items(env, fuel, body, items, st)
                        },
                        other => operand_failure("array", &other, span),
                    }
                },
                other => other,
            }
        },
        ExpressionKind::Required(inner) => {
            let f = eval_expr(env, fuel, inner, st);
            match f {
                Flow::Val(v) => match missing_path(&v) {
                    None => Flow::Val(v),
                    Some(p) => required_failure(inner, &p, span),
                },
                other => other,
            }
        },
        ExpressionKind::Unary { operator, operand } => {
            let f = eval_expr(env, fuel, operand, st);
            match f {
                Flow::Val(v) => eval_unary(env, *operator, v, span, st),
                other => other,
            }
        },
        ExpressionKind::Binary { left, operator, right } => {
            let f = eval_expr(env, fuel, left, st);
            match f {
                Flow::Val(lv) => {
                    let logical = match operator {
                        BinaryOperator::And => true,
                        BinaryOperator::Or => true,
                        _ => false,
                    };
                    proof {
                        lemma_value_view(lv);
                    }
                    if logical {
                        match lv {
                            Value::Boolean(b) => {
                                let short = match operator {
                                    BinaryOperator::And => !b,
                                    _ => b,
                                };
                                if short {
                                    val(bool_value(b))
                                } else {
                                    let g = eval_expr(env, fuel, right, st);
                                    match g {
                                        Flow::Val(rv) => {
                                            proof {
                                                lemma_value_view(rv);
                                            }
                                            match rv {
                                                Value::Boolean(c) => val(bool_value(c)),
                                                other => operand_failure("boolean", &other, span),
                                            }
                                        },
                                        other => other,
                                    }
                                }
                            },
                            other => operand_failure("boolean", &other, span),
                        }
                    } else {
                        let g = eval_expr(env, fuel, right, st);
                        match g {
                            Flow::Val(rv) => {
                                let ghost o = spec_binary(lv@, *operator, rv@);
                                let r = crate::operators::binary(lv, *operator, rv, span);
                                settle_op(env, r, Ghost(o), span, st)
                            },
                            other => other,
                        }
                    }
                },
                other => other,
            }
        },
        ExpressionKind::IfElse { condition, then_branch, else_branch } => {
            let f = eval_expr(env, fuel, condition, st);
            match f {
                Flow::Val(v) => {
                    proof {
                        lemma_value_view(v);
                    }
                    match v {
                        Value::Boolean(true) => eval_expr(env, fuel, then_branch, st),
                        Value::Boolean(false) => eval_expr(env, fuel, else_branch, st),
                        other => Flow::Fail(error2("expected boolean condition, got ", other.kind().name(), span)),
                    }
                },
                other => other,
            }
        },
        ExpressionKind::BlockIf { condition, then_branch, else_branch } => {
            let f = eval_expr(env, fuel, condition, st);
            match f {
                Flow::Val(v) => {
                    proof {
                        lemma_value_view(v);
                    }
                    match v {
                        Value::Boolean(true) => eval_block(env, fuel, then_branch, st),
                        Value::Boolean(false) => match else_branch {
                            Some(b) => eval_block(env, fuel, b, st),
                            None => val(null_value()),
                        },
                        other => Flow::Fail(error2("expected boolean condition, got ", other.kind().name(), span)),
                    }
                },
                other => other,
            }
        },
        ExpressionKind::Switch { target, arms } => {
            let f = eval_expr(env, fuel, target, st);
            match f {
                Flow::Val(t) => eval_arms(env, fuel, arms, t, span, st),
                other => other,
            }
        },
        ExpressionKind::Subscript { receiver, index } => {
            let f = eval_expr(env, fuel, receiver, st);
            match f {
                Flow::Val(rv) => {
                    let g = eval_expr(env, fuel, index, st);
                    match g {
                        Flow::Val(iv) => from_outcome(subscript_value(&rv, &iv, span)),
                        other => other,
                    }
                },
                other => other,
            }
        },
    }
}

/// Evaluates `es` from `start` on, after `acc` (see `ev_list`).
fn eval_list(env: &Env, fuel: u64, es: &Vec<Expression>, start: usize, acc: Vec<Value>, st: &mut State) -> (r: Result<Vec<Value>, Flow>)
    ensures
        list_matches(r, ev_list(env@, fuel as nat, exprs_view(es@), start as int, values_view(acc@), old(st)@).0),
        final(st)@ == ev_list(env@, fuel as nat, exprs_view(es@), start as int, values_view(acc@), old(st)@).1,
    decreases fuel, es, 0int, 0int,
{
    let ghost ev = exprs_view(es@);
    let ghost target = ev_list(env@, fuel as nat, ev, start as int, values_view(acc@), st@);
    proof {
        crate::ast::lemma_exprs_len(es@);
    }
    let mut out = acc;
    let mut i = start;
    while i < es.len()
        invariant
            ev == exprs_view(es@),
            ev.len() == es@.len(),
            target == ev_list(env@, fuel as nat, ev, start as int, values_view(acc@), old(st)@),
            target == ev_list(env@, fuel as nat, ev, i as int, values_view(out@), st@),
        decreases es@.len() - i,
    {
        proof {
            crate::ast::lemma_exprs_index(es@, i as int);
            assert(decreases_to!(es => es@));
            assert(decreases_to!(es@ => es@[i as int]));
        }
        let f = eval_expr(env, fuel, &es[i], st);
        match f {
            Flow::Val(v) => {
                proof {
                    lemma_values_push(out@, v);
                }
                out.push(v);
            },
            other => {
                return Err(other);
            },
        }
        i = i + 1;
    }
    Ok(out)
}

/// An interpolated string (see `ev_parts`).
fn eval_parts(env: &Env, fuel: u64, parts: &Vec<InterpolatedStringPart>, st: &mut State) -> (r: Flow)
    ensures
        (r@, final(st)@) == ev_parts(env@, fuel as nat, iparts_view(parts@), 0, Seq::empty(), old(st)@),
    decreases fuel, parts, 0int, 0int,
{
    let ghost pv = iparts_view(parts@);
    let ghost target = ev_parts(env@, fuel as nat, pv, 0, Seq::empty(), st@);
    proof {
        crate::ast::lemma_iparts_len(parts@);
    }
    let mut out = String::new();
    let mut i: usize = 0;
    while i < parts.len()
        invariant
            pv == iparts_view(parts@),
            pv.len() == parts@.len(),
            i <= parts@.len(),
            target == ev_parts(env@, fuel as nat, pv, 0, Seq::empty(), old(st)@),
            target == ev_parts(env@, fuel as nat, pv, i as int, out@, st@),
        decreases parts@.len() - i,
    {
        proof {
            crate::ast::lemma_iparts_index(parts@, i as int);
            assert(decreases_to!(parts => parts@));
            assert(decreases_to!(parts@ => parts@[i as int]));
        }
        match &parts[i] {
            InterpolatedStringPart::Literal(s) => {
                string_push_str(&mut out, s.as_str());
            },
            InterpolatedStringPart::Expression(x) => {
                let f = eval_expr(env, fuel, x, st);
                match f {
                    Flow::Val(v) => match interpolate(&mut out, &v, x.span) {
                        Ok(()) => {},
                        Err(e) => {
                            return Flow::Fail(e);
                        },
                    },
                    other => {
                        return other;
                    },
                }
            },
        }
        i = i + 1;
    }
    val(string_value(out))
}

/// An object literal (see `ev_fields`).
fn eval_fields(env: &Env, fuel: u64, fields: &Vec<crate::ast::ObjectField>, st: &mut State) -> (r: Flow)
    ensures
        (r@, final(st)@) == ev_fields(env@, fuel as nat, fields_view(fields@), 0, Seq::empty(), old(st)@),
    decreases fuel, fields, 0int, 0int,
{
    let ghost fv = fields_view(fields@);
    let ghost target = ev_fields(env@, fuel as nat, fv, 0, Seq::empty(), st@);
    proof {
        crate::ast::lemma_fields_len(fields@);
    }
    let mut out = Object::new();
    let mut i: usize = 0;
    while i < fields.len()
        invariant
            fv == fields_view(fields@),
            fv.len() == fields@.len(),
            i <= fields@.len(),
            target == ev_fields(env@, fuel as nat, fv, 0, Seq::empty(), old(st)@),
            target == ev_fields(env@, fuel as nat, fv, i as int, out@, st@),
        decreases fields@.len() - i,
    {
        proof {
            crate::ast::lemma_fields_index(fields@, i as int);
            assert(decreases_to!(fields => fields@));
            assert(decreases_to!(fields@ => fields@[i as int]));
        }
        let f = eval_expr(env, fuel, &fields[i].value, st);
        match f {
            Flow::Val(v) => {
                let _ = out.insert(fields[i].name.as_str(), v);
            },
            other => {
                return other;
            },
        }
        i = i + 1;
    }
    val(object_value(out))
}

/// A switch's arms (see `ev_arms`).
fn eval_arms(env: &Env, fuel: u64, arms: &Vec<crate::ast::SwitchArm>, t: Value, span: Span, st: &mut State) -> (r: Flow)
    ensures
        (r@, final(st)@) == ev_arms(env@, fuel as nat, arms_view(arms@), 0, t@, span, old(st)@),
    decreases fuel, arms, 0int, 0int,
{
    let ghost av = arms_view(arms@);
    let ghost tv = t@;
    let ghost target = ev_arms(env@, fuel as nat, av, 0, tv, span, st@);
    proof {
        crate::ast::lemma_arms_len(arms@);
    }
    let mut i: usize = 0;
    while i < arms.len()
        invariant
            av == arms_view(arms@),
            av.len() == arms@.len(),
            i <= arms@.len(),
            tv == t@,
            target == ev_arms(env@, fuel as nat, av, 0, tv, span, old(st)@),
            target == ev_arms(env@, fuel as nat, av, i as int, tv, span, st@),
        decreases arms@.len() - i,
    {
        proof {
            crate::ast::lemma_arms_index(arms@, i as int);
            assert(decreases_to!(arms => arms@));
            assert(decreases_to!(arms@ => arms@[i as int]));
        }
        match &arms[i].pattern {
            SwitchPattern::Value(p) => {
                let f = eval_expr(env, fuel, p, st);
                match f {
                    Flow::Val(pv) => {
                        if crate::value::value_eq(&pv, &t) {
                            return eval_expr(env, fuel, &arms[i].value, st);
                        }
                    },
                    other => {
                        return other;
                    },
                }
            },
            SwitchPattern::Wildcard => {
                return eval_expr(env, fuel, &arms[i].value, st);
            },
            SwitchPattern::Binding(name) => {
                let mut saved = st.frame.child();
                std::mem::swap(&mut st.frame, &mut saved);
                st.frame.assign(&mut st.shared, name.as_str(), t, Visibility::Private);
                let f = eval_expr(env, fuel, &arms[i].value, st);
                st.frame = saved;
                return f;
            },
        }
        i = i + 1;
    }
    failure("switch expression did not match and has no fallback", span)
}

/// The arguments of a call, the receiver first (see `ev_all_args`).
fn eval_all_args(env: &Env, fuel: u64, e: &Expression, st: &mut State) -> (r: Result<Vec<Value>, Flow>)
    ensures
        list_matches(r, ev_all_args(env@, fuel as nat, expr_view(*e), old(st)@).0),
        final(st)@ == ev_all_args(env@, fuel as nat, expr_view(*e), old(st)@).1,
    decreases fuel, e, 1int, 0int,
{
    match &e.kind {
        ExpressionKind::MethodCall { receiver, arguments, .. } => {
            let f = eval_expr(env, fuel, receiver, st);
            match f {
                Flow::Val(v) => {
                    let mut acc = empty_values();
                    proof {
                        lemma_values_push(acc@, v);
                        assert(values_view(acc@).push(v@) =~= seq![v@]);
                    }
                    acc.push(v);
                    eval_list(env, fuel, arguments, 0, acc, st)
                },
                other => Err(other),
            }
        },
        ExpressionKind::FunctionCall { arguments, .. } => eval_list(env, fuel, arguments, 0, empty_values(), st),
        _ => Ok(empty_values()),
    }
}

/// The target of a call on a value (see `ev_target`).
fn eval_target(env: &Env, fuel: u64, e: &Expression, st: &mut State) -> (r: Flow)
    ensures
        (r@, final(st)@) == ev_target(env@, fuel as nat, expr_view(*e), old(st)@),
    decreases fuel, e, 1int, 0int,
{
    match &e.kind {
        ExpressionKind::MethodCall { receiver, .. } => eval_expr(env, fuel, receiver, st),
        ExpressionKind::FunctionCall { name, arguments } => {
            proof {
                crate::ast::lemma_exprs_len(arguments@);
            }
            if arguments.len() == 0 {
                failure3("`", name.as_str(), "` expects a target value as the first argument", e.span)
            } else {
                proof {
                    crate::ast::lemma_exprs_index(arguments@, 0);
                    assert(decreases_to!(arguments => arguments@));
                    assert(decreases_to!(arguments@ => arguments@[0]));
                }
                eval_expr(env, fuel, &arguments[0], st)
            }
        },
        _ => val(null_value()),
    }
}

/// The arguments after the target (see `ev_rest`).
fn eval_rest(env: &Env, fuel: u64, e: &Expression, st: &mut State) -> (r: Result<Vec<Value>, Flow>)
    ensures
        list_matches(r, ev_rest(env@, fuel as nat, expr_view(*e), old(st)@).0),
        final(st)@ == ev_rest(env@, fuel as nat, expr_view(*e), old(st)@).1,
    decreases fuel, e, 1int, 0int,
{
    match &e.kind {
        ExpressionKind::MethodCall { arguments, .. } => eval_list(env, fuel, arguments, 0, empty_values(), st),
        ExpressionKind::FunctionCall { arguments, .. } => eval_list(env, fuel, arguments, 1, empty_values(), st),
        _ => Ok(empty_values()),
    }
}

/// A call by name (see `ev_call`).
fn eval_call(env: &Env, fuel: u64, e: &Expression, st: &mut State) -> (r: Flow)
    ensures
        (r@, final(st)@) == ev_call(env@, fuel as nat, expr_view(*e), old(st)@),
    decreases fuel, e, 2int, 0int,
{
    let span = e.span;
    let name = call_name_of(e);
    match crate::functions::builtin_function(name.as_str()) {
        Some(b) => match b.kind() {
            BuiltinFunctionKind::Lambda => {
                let f = eval_target(env, fuel, e, st);
                match f {
                    Flow::Val(t) => if str_eq(name.as_str(), "assert") || str_eq(name.as_str(), "warn") {
                        eval_guard(env, fuel, e, name.as_str(), t, st)
                    } else {
                        eval_lambda(env, fuel, e, name.as_str(), t, st)
                    },
                    other => other,
                }
            },
            BuiltinFunctionKind::Value => {
                let f = eval_target(env, fuel, e, st);
                match f {
                    Flow::Val(t) => match eval_rest(env, fuel, e, st) {
                        Ok(vs) => match value_builtin_or_back(name.as_str(), t, vs, span) {
                            Ok(x) => from_outcome(x),
                            Err((t, vs)) => {
                                let mut all = empty_values();
                                proof {
                                    lemma_values_push(all@, t);
                                }
                                all.push(t);
                                let mut k: usize = 0;
                                proof {
                                    lemma_values_view(vs@);
                                    lemma_values_view(all@);
                                }
                                while k < vs.len()
                                    invariant
                                        k <= vs@.len(),
                                        values_view(all@) == seq![t@] + values_view(vs@).take(k as int),
                                    decreases vs@.len() - k,
                                {
                                    let x = vs[k].duplicate();
                                    proof {
                                        lemma_values_push(all@, x);
                                        lemma_values_view(vs@);
                                        assert(values_view(vs@).take(k + 1) =~= values_view(vs@).take(k as int).push(x@));
                                    }
                                    all.push(x);
                                    k = k + 1;
                                }
                                proof {
                                    assert(values_view(vs@).take(k as int) =~= values_view(vs@));
                                }
                                request(env, Need::Host(name, all), span, st)
                            },
                        },
                        Err(g) => g,
                    },
                    other => other,
                }
            },
            BuiltinFunctionKind::Core => match eval_all_args(env, fuel, e, st) {
                Ok(vs) => call_core(env, name.as_str(), vs, span, st),
                Err(g) => g,
            },
        },
        None => match eval_all_args(env, fuel, e, st) {
            Ok(vs) => if str_eq(name.as_str(), "assertEq") {
                from_outcome(assert_eq_call(&vs, span))
            } else {
                match find_function(env.functions, name.as_str()) {
                    Some(k) => {
                        let fun = &env.functions[k];
                        proof {
                            lemma_functions_view(env.functions@);
                            crate::ast::lemma_strings_len(fun.parameters@);
                            lemma_values_view(vs@);
                        }
                        if vs.len() != fun.parameters.len() {
                            arity_failure(name.as_str(), fun.parameters.len(), vs.len(), span)
                        } else if fuel == 0 {
                            Flow::Exhausted
                        } else {
                            let mut saved = st.frame.function();
                            std::mem::swap(&mut st.frame, &mut saved);
                            bind_parameters(&fun.parameters, &vs, st);
                            let g = eval_block(env, fuel - 1, &fun.body, st);
                            st.frame = saved;
                            match g {
                                Flow::Val(v) => Flow::Val(v),
                                Flow::Ret(v) => Flow::Val(v),
                                Flow::Brk => failure("`break` escaped its loop", span),
                                other => other,
                            }
                        }
                    },
                    None => call_host(env, name, vs, span, st),
                }
            },
            Err(g) => g,
        },
    }
}

/// The end of a guard (see `guard_outcome`).
fn finish_guard(warning: bool, passed: bool, m: String, t: Value, span: Span, st: &mut State) -> (r: Flow)
    ensures
        (r@, final(st)@) == guard_outcome(warning, passed, m@, t@, span, old(st)@),
{
    if passed {
        Flow::Val(t)
    } else if warning {
        let ghost before = st.warnings@;
        let d = Diagnostic::new(m.as_str(), Some(span));
        st.warnings.push(d);
        proof {
            assert(diagnostics_view(st.warnings@) =~= diagnostics_view(before).push((m@, Some(span))));
        }
        Flow::Val(t)
    } else {
        Flow::Fail(ExecutionError::from_message(m, Some(span)))
    }
}

/// `assert` and `warn` (see `ev_guard`).
#[verifier::rlimit(80)]
fn eval_guard(env: &Env, fuel: u64, e: &Expression, name: &str, t: Value, st: &mut State) -> (r: Flow)
    ensures
        (r@, final(st)@) == ev_guard(env@, fuel as nat, expr_view(*e), name@, t@, old(st)@),
    decreases fuel, e, 1int, 0int,
{
    let span = e.span;
    let warning = str_eq(name, "warn");
    let (arguments, first): (&Vec<Expression>, usize) = match &e.kind {
        ExpressionKind::MethodCall { arguments, .. } => (arguments, 0),
        ExpressionKind::FunctionCall { arguments, .. } => (arguments, 1),
        _ => {
            return failure("guard expects a lambda and message", span);
        },
    };
    proof {
        crate::ast::lemma_exprs_len(arguments@);
        lemma_value_view(t);
    }
    let direct = arguments.len() == first + 1 && (match &t {
        Value::Boolean(_) => true,
        _ => false,
    });
    if direct {
        proof {
            crate::ast::lemma_exprs_index(arguments@, first as int);
            assert(decreases_to!(arguments => arguments@));
            assert(decreases_to!(arguments@ => arguments@[first as int]));
        }
        let passed = match &t {
            Value::Boolean(b) => *b,
            _ => false,
        };
        let f = eval_expr(env, fuel, &arguments[first], st);
        match f {
            Flow::Val(mv) => {
                proof {
                    lemma_value_view(mv);
                }
                match mv {
                    Value::String(m) => finish_guard(warning, passed, m, t, span, st),
                    other => operand_failure("string", &other, span),
                }
            },
            other => other,
        }
    } else if arguments.len() != first + 2 {
        failure("guard expects a lambda and message", span)
    } else {
        proof {
            crate::ast::lemma_exprs_index(arguments@, first as int);
            crate::ast::lemma_exprs_index(arguments@, first + 1);
            assert(decreases_to!(arguments => arguments@));
            assert(decreases_to!(arguments@ => arguments@[first as int]));
            assert(decreases_to!(arguments@ => arguments@[first + 1]));
        }
        match &arguments[first].kind {
            ExpressionKind::Lambda { parameters, body } => {
                proof {
                    crate::ast::lemma_strings_len(parameters@);
                }
                if parameters.len() != 1 {
                    failure("guard expects a one-parameter lambda", span)
                } else {
                    proof {
                        crate::ast::lemma_strings_index(parameters@, 0);
                    }
                    let f = eval_expr(env, fuel, &arguments[first + 1], st);
                    match f {
                        Flow::Val(mv) => {
                            proof {
                                lemma_value_view(mv);
                            }
                            match mv {
                                Value::String(m) => {
                                    let mut saved = st.frame.child();
                                    std::mem::swap(&mut st.frame, &mut saved);
                                    st.frame.assign(&mut st.shared, parameters[0].as_str(), t.duplicate(), Visibility::Private);
                                    let g = eval_expr(env, fuel, body, st);
                                    st.frame = saved;
                                    match g {
                                        Flow::Val(pv) => {
                                            proof {
                                                lemma_value_view(pv);
                                            }
                                            match pv {
                                                Value::Boolean(passed) => finish_guard(warning, passed, m, t, span, st),
                                                other => operand_failure("boolean", &other, span),
                                            }
                                        },
                                        other => other,
                                    }
                                },
                                other => operand_failure("string", &other, span),
                            }
                        },
                        other => other,
                    }
                }
            },
            _ => failure("guard expects a lambda", span),
        }
    }
}

/// `sort_by` (see `ev_sort_outer`).
#[verifier::rlimit(80)]
fn eval_sort_by(
    env: &Env,
    fuel: u64,
    body: &Expression,
    p0: &String,
    p1: &String,
    items: Vec<Value>,
    Ghost(iv): Ghost<Seq<ValueV>>,
    span: Span,
    st: &mut State,
) -> (r: Flow)
    requires
        values_view(items@) == iv,
    ensures
        (r@, final(st)@) == ev_sort_outer(env@, fuel as nat, expr_view(*body), p0@, p1@, iv, 1, iv.len(), span, old(st)@),
    decreases fuel, body, 5int, 0int,
{
    let ghost bv = expr_view(*body);
    let ghost n = iv.len();
    let ghost target = ev_sort_outer(env@, fuel as nat, bv, p0@, p1@, iv, 1, n, span, st@);
    proof {
        lemma_values_view(items@);
    }
    let mut vals = items;
    let mut index: usize = 1;
    while index < vals.len()
        invariant
            bv == expr_view(*body),
            n == iv.len(),
            values_view(vals@).len() == n,
            vals@.len() == n,
            1 <= index,
            target == ev_sort_outer(env@, fuel as nat, bv, p0@, p1@, iv, 1, n, span, old(st)@),
            target == ev_sort_outer(env@, fuel as nat, bv, p0@, p1@, values_view(vals@), index as int, n, span, st@),
        decreases vals@.len() - index,
    {
        let ghost inner_target = ev_sort_inner(env@, fuel as nat, bv, p0@, p1@, values_view(vals@), index as int, span, st@);
        proof {
            assert(inner_target.0 is Val ==> target == ev_sort_outer(env@, fuel as nat, bv, p0@, p1@, inner_target.2, index + 1, n, span, inner_target.1));
            assert(!(inner_target.0 is Val) ==> target == (inner_target.0, inner_target.1));
        }
        let mut current = index;
        let mut stop: Option<Flow> = None;
        loop
            invariant_except_break
                inner_target == ev_sort_inner(env@, fuel as nat, bv, p0@, p1@, values_view(vals@), current as int, span, st@),
                stop is None,
            invariant
                bv == expr_view(*body),
                vals@.len() == n,
                values_view(vals@).len() == n,
                current <= index,
                index < n,
            ensures
                bv == expr_view(*body),
                vals@.len() == n,
                values_view(vals@).len() == n,
                index < n,
                match stop {
                    Some(fl) => inner_target == (fl@, st@, inner_target.2) && !(fl@ is Val),
                    None => inner_target == (FlowV::Val(ValueV::Null), st@, values_view(vals@)),
                },
            decreases current,
        {
            let ghost st0 = st@;
            let ghost v0 = values_view(vals@);
            proof {
                lemma_values_view(vals@);
            }
            if current == 0 {
                break;
            }
            let mut saved = st.frame.child();
            std::mem::swap(&mut st.frame, &mut saved);
            st.frame.assign(&mut st.shared, p0.as_str(), vals[current - 1].duplicate(), Visibility::Private);
            st.frame.assign(&mut st.shared, p1.as_str(), vals[current].duplicate(), Visibility::Private);
            let f = eval_expr(env, fuel, body, st);
            st.frame = saved;
            let g = match f {
                Flow::Val(v) => {
                    proof {
                        lemma_value_view(v);
                    }
                    match v {
                        Value::Number(num) => match crate::value::number_as_i64(&num) {
                            Some(i) => val(bool_value(i <= 0)),
                            None => request(env, Need::Float(Evaluated::Float(BinaryOperator::LessEqual, num, crate::value::number_from_i64(0))), span, st),
                        },
                        _ => failure("`sort_by` comparator must return a number", span),
                    }
                },
                other => other,
            };
            match g {
                Flow::Val(b) => {
                    proof {
                        lemma_value_view(b);
                    }
                    match b {
                        Value::Boolean(true) => {
                            break;
                        },
                        Value::Boolean(false) => {
                            let a = vals[current - 1].duplicate();
                            let c = vals[current].duplicate();
                            let ghost before = values_view(vals@);
                            vals.set(current - 1, c);
                            vals.set(current, a);
                            proof {
                                lemma_values_view(vals@);
                                assert(values_view(vals@) =~= before.update(current - 1, before[current as int]).update(current as int, before[current - 1]));
                            }
                            current = current - 1;
                        },
                        _ => {
                            stop = Some(failure("`sort_by` comparator must return a number", span));
                            break;
                        },
                    }
                },
                other => {
                    stop = Some(other);
                    break;
                },
            }
        }
        match stop {
            Some(fl) => {
                return fl;
            },
            None => {},
        }
        index = index + 1;
    }
    val(array_value(vals))
}

/// The builtins that take a lambda (see `ev_lambda`).
fn eval_lambda(env: &Env, fuel: u64, e: &Expression, name: &str, t: Value, st: &mut State) -> (r: Flow)
    ensures
        (r@, final(st)@) == ev_lambda(env@, fuel as nat, expr_view(*e), name@, t@, old(st)@),
    decreases fuel, e, 1int, 0int,
{
    let span = e.span;
    let supported = str_eq(name, "map") || str_eq(name, "filter") || str_eq(name, "any") || str_eq(name, "all")
        || str_eq(name, "find") || str_eq(name, "sort_by");
    if !supported {
        return failure3("`", name, "` is not available in this runtime", span);
    }
    let (arguments, first): (&Vec<Expression>, usize) = match &e.kind {
        ExpressionKind::MethodCall { arguments, .. } => (arguments, 0),
        ExpressionKind::FunctionCall { arguments, .. } => (arguments, 1),
        _ => {
            return failure3("`", name, "` expects one lambda", span);
        },
    };
    proof {
        crate::ast::lemma_exprs_len(arguments@);
    }
    if arguments.len() != first + 1 {
        return failure3("`", name, "` expects one lambda", span);
    }
    proof {
        crate::ast::lemma_exprs_index(arguments@, first as int);
        assert(decreases_to!(arguments => arguments@));
        assert(decreases_to!(arguments@ => arguments@[first as int]));
    }
    match &arguments[first].kind {
        ExpressionKind::Lambda { parameters, body } => {
            proof {
                crate::ast::lemma_strings_len(parameters@);
            }
            if str_eq(name, "sort_by") {
                if parameters.len() != 2 {
                    failure("`sort_by` expects a 2-parameter lambda", span)
                } else {
                    proof {
                        crate::ast::lemma_strings_index(parameters@, 0);
                        crate::ast::lemma_strings_index(parameters@, 1);
                        lemma_value_view(t);
                    }
                    match t {
                        Value::Array(items) => {
                            proof {
                                lemma_values_view(items@);
                            }
                            eval_sort_by(env, fuel, body, &parameters[0], &parameters[1], items, Ghost(values_view(items@)), span, st)
                        },
                        other => operand_failure("array", &other, span),
                    }
                }
            } else if parameters.len() != 1 {
                failure3("`", name, "` expects a one-parameter lambda", span)
            } else {
                proof {
                    crate::ast::lemma_strings_index(parameters@, 0);
                    lemma_value_view(t);
                }
                match t {
                    Value::Array(items) => {
                        proof {
                            lemma_values_view(items@);
                        }
                        eval_items(env, fuel, body, name, &parameters[0], items, span, st)
                    },
                    other => operand_failure("array", &other, span),
                }
            }
        },
        _ => failure3("`", name, "` expects a lambda", span),
    }
}

/// Runs a lambda's body on each item (see `ev_items`).
fn eval_items(env: &Env, fuel: u64, body: &Expression, name: &str, param: &String, items: Vec<Value>, span: Span, st: &mut State) -> (r: Flow)
    ensures
        (r@, final(st)@) == ev_items(env@, fuel as nat, expr_view(*body), name@, param@, values_view(items@), 0, Seq::empty(), span, old(st)@),
    decreases fuel, body, 4int, 0int,
{
    let ghost iv = values_view(items@);
    let ghost target = ev_items(env@, fuel as nat, expr_view(*body), name@, param@, iv, 0, Seq::empty(), span, st@);
    let is_map = str_eq(name, "map");
    let is_filter = str_eq(name, "filter");
    let is_any = str_eq(name, "any");
    let is_all = str_eq(name, "all");
    let is_find = str_eq(name, "find");
    proof {
        lemma_values_view(items@);
    }
    let mut acc = empty_values();
    let mut i: usize = 0;
    while i < items.len()
        invariant
            iv == values_view(items@),
            iv.len() == items@.len(),
            i <= items@.len(),
            is_map == (name@ == "map"@),
            is_filter == (name@ == "filter"@),
            is_any == (name@ == "any"@),
            is_all == (name@ == "all"@),
            is_find == (name@ == "find"@),
            target == ev_items(env@, fuel as nat, expr_view(*body), name@, param@, iv, 0, Seq::empty(), span, old(st)@),
            target == ev_items(env@, fuel as nat, expr_view(*body), name@, param@, iv, i as int, values_view(acc@), span, st@),
        decreases items@.len() - i,
    {
        proof {
            lemma_values_view(items@);
        }
        let item = items[i].duplicate();
        let mut saved = st.frame.child();
        std::mem::swap(&mut st.frame, &mut saved);
        st.frame.assign(&mut st.shared, param.as_str(), item.duplicate(), Visibility::Private);
        let f = eval_expr(env, fuel, body, st);
        st.frame = saved;
        match f {
            Flow::Val(v) => {
                if is_map {
                    proof {
                        lemma_values_push(acc@, v);
                    }
                    acc.push(v);
                } else {
                    proof {
                        lemma_value_view(v);
                    }
                    match v {
                        Value::Boolean(keep) => {
                            if is_filter {
                                if keep {
                                    proof {
                                        lemma_values_push(acc@, item);
                                    }
                                    acc.push(item);
                                }
                            } else if is_any && keep {
                                return val(bool_value(true));
                            } else if is_all && !keep {
                                return val(bool_value(false));
                            } else if is_find && keep {
                                return Flow::Val(item);
                            }
                        },
                        other => {
                            return operand_failure("boolean", &other, span);
                        },
                    }
                }
            },
            other => {
                return other;
            },
        }
        i = i + 1;
    }
    if is_any {
        val(bool_value(false))
    } else if is_all {
        val(bool_value(true))
    } else if is_find {
        val(null_value())
    } else {
        val(array_value(acc))
    }
}

/// `items.map { .. }` (see `ev_map_block`).
fn eval_map_items(env: &Env, fuel: u64, body: &Vec<Statement>, items: Vec<Value>, st: &mut State) -> (r: Flow)
    ensures
        (r@, final(st)@) == ev_map_block(env@, fuel as nat, stmts_view(body@), values_view(items@), 0, Seq::empty(), old(st)@),
    decreases fuel, body, 4int, 0int,
{
    let ghost iv = values_view(items@);
    let ghost target = ev_map_block(env@, fuel as nat, stmts_view(body@), iv, 0, Seq::empty(), st@);
    proof {
        lemma_values_view(items@);
    }
    let mut acc = empty_values();
    let mut i: usize = 0;
    while i < items.len()
        invariant
            iv == values_view(items@),
            iv.len() == items@.len(),
            i <= items@.len(),
            target == ev_map_block(env@, fuel as nat, stmts_view(body@), iv, 0, Seq::empty(), old(st)@),
            target == ev_map_block(env@, fuel as nat, stmts_view(body@), iv, i as int, values_view(acc@), st@),
        decreases items@.len() - i,
    {
        proof {
            lemma_values_view(items@);
        }
        let mut saved = st.frame.child();
        std::mem::swap(&mut st.frame, &mut saved);
        st.frame.assign(&mut st.shared, "it", items[i].duplicate(), Visibility::Private);
        let f = eval_block(env, fuel, body, st);
        let output = st.frame.output(&st.shared);
        st.frame = saved;
        match f {
            Flow::Val(_) => {
                let o = object_value(output);
                proof {
                    lemma_values_push(acc@, o);
                }
                acc.push(o);
            },
            other => {
                return other;
            },
        }
        i = i + 1;
    }
    val(array_value(acc))
}

/// Runs one statement (see `ev_stmt`).
fn eval_stmt(env: &Env, fuel: u64, s: &Statement, st: &mut State) -> (r: Flow)
    ensures
        (r@, final(st)@) == ev_stmt(env@, fuel as nat, stmt_view(*s), old(st)@),
    decreases fuel, s, 1int, 0int,
{
    match &s.kind {
        StatementKind::Assignment { name, operator, visibility, value } => {
            let f = eval_expr(env, fuel, value, st);
            match f {
                Flow::Val(v) => match operator {
                    AssignmentOperator::Assign => {
                        st.frame.assign(&mut st.shared, name.as_str(), v, *visibility);
                        val(null_value())
                    },
                    _ => match st.frame.get(&st.shared, name.as_str()) {
                        None => failure3("cannot update unresolved value `", name.as_str(), "`", s.span),
                        Some(current) => {
                            let op = match operator {
                                AssignmentOperator::Add => BinaryOperator::Add,
                                _ => BinaryOperator::Subtract,
                            };
                            let ghost o = spec_binary(current@, op, v@);
                            let r = crate::operators::binary(current, op, v, s.span);
                            let g = settle_op(env, r, Ghost(o), s.span, st);
                            match g {
                                Flow::Val(nv) => {
                                    st.frame.assign(&mut st.shared, name.as_str(), nv, *visibility);
                                    val(null_value())
                                },
                                other => other,
                            }
                        },
                    },
                },
                other => other,
            }
        },
        StatementKind::ComputedAssignment { name, value } => {
            let f = eval_expr(env, fuel, name, st);
            match f {
                Flow::Val(n) => {
                    proof {
                        lemma_value_view(n);
                    }
                    match n {
                        Value::String(text) => {
                            let g = eval_expr(env, fuel, value, st);
                            match g {
                                Flow::Val(v) => {
                                    let vis = visibility_of_name(text.as_str());
                                    st.frame.assign(&mut st.shared, text.as_str(), v, vis);
                                    val(null_value())
                                },
                                other => other,
                            }
                        },
                        other => Flow::Fail(error2("computed assignment name must be a string, got ", other.kind().name(), name.span)),
                    }
                },
                other => other,
            }
        },
        StatementKind::Return(value) => {
            let f = eval_expr(env, fuel, value, st);
            match f {
                Flow::Val(v) => Flow::Ret(v),
                other => other,
            }
        },
        StatementKind::While { .. } => eval_repeat(env, fuel, s, st),
        StatementKind::Loop { .. } => eval_repeat(env, fuel, s, st),
        StatementKind::Break => Flow::Brk,
        StatementKind::Expression(x) => {
            let f = eval_expr(env, fuel, x, st);
            match f {
                Flow::Val(v) => {
                    apply_effect(x, &v, st);
                    Flow::Val(v)
                },
                other => other,
            }
        },
    }
}

/// The iterations of a `while` or `loop` (see `ev_repeat`).
fn eval_repeat(env: &Env, fuel: u64, s: &Statement, st: &mut State) -> (r: Flow)
    ensures
        (r@, final(st)@) == ev_repeat(env@, fuel as nat, stmt_view(*s), old(st)@),
    decreases fuel, s, 0int, 0int,
{
    let ghost sv = stmt_view(*s);
    let ghost target = ev_repeat(env@, fuel as nat, sv, st@);
    let mut f = fuel;
    loop
        invariant
            f <= fuel,
            sv == stmt_view(*s),
            target == ev_repeat(env@, fuel as nat, sv, old(st)@),
            target == ev_repeat(env@, f as nat, sv, st@),
        decreases f,
    {
        if f == 0 {
            return Flow::Exhausted;
        }
        match &s.kind {
            StatementKind::While { condition, body } => {
                let c = eval_expr(env, f, condition, st);
                match c {
                    Flow::Val(v) => {
                        proof {
                            lemma_value_view(v);
                        }
                        match v {
                            Value::Boolean(true) => {
                                let g = eval_block(env, f, body, st);
                                match g {
                                    Flow::Val(_) => {},
                                    Flow::Brk => {
                                        return val(null_value());
                                    },
                                    other => {
                                        return other;
                                    },
                                }
                            },
                            Value::Boolean(false) => {
                                return val(null_value());
                            },
                            other => {
                                return operand_failure("boolean", &other, condition.span);
                            },
                        }
                    },
                    other => {
                        return other;
                    },
                }
            },
            StatementKind::Loop { body } => {
                let g = eval_block(env, f, body, st);
                match g {
                    Flow::Val(_) => {},
                    Flow::Brk => {
                        return val(null_value());
                    },
                    other => {
                        return other;
                    },
                }
            },
            _ => {
                return val(null_value());
            },
        }
        f = f - 1;
    }
}

/// Runs a block (see `ev_block`).
fn eval_block(env: &Env, fuel: u64, ss: &Vec<Statement>, st: &mut State) -> (r: Flow)
    ensures
        (r@, final(st)@) == ev_block(env@, fuel as nat, stmts_view(ss@), 0, ValueV::Null, old(st)@),
    decreases fuel, ss, 0int, 0int,
{
    let ghost sv = stmts_view(ss@);
    let ghost target = ev_block(env@, fuel as nat, sv, 0, ValueV::Null, st@);
    proof {
        crate::ast::lemma_stmts_len(ss@);
    }
    let mut last = null_value();
    let mut i: usize = 0;
    while i < ss.len()
        invariant
            sv == stmts_view(ss@),
            sv.len() == ss@.len(),
            i <= ss@.len(),
            target == ev_block(env@, fuel as nat, sv, 0, ValueV::Null, old(st)@),
            target == ev_block(env@, fuel as nat, sv, i as int, last@, st@),
        decreases ss@.len() - i,
    {
        proof {
            crate::ast::lemma_stmts_index(ss@, i as int);
            assert(decreases_to!(ss => ss@));
            assert(decreases_to!(ss@ => ss@[i as int]));
        }
        let f = eval_stmt(env, fuel, &ss[i], st);
        match f {
            Flow::Val(v) => {
                last = v;
            },
            other => {
                return other;
            },
        }
        i = i + 1;
    }
    Flow::Val(last)
}

// ---------------------------------------------------------------------------
// Runs
// ---------------------------------------------------------------------------

/// The loop iterations and calls a replay may make before the run asks to
/// be stepped again with twice as many.
pub const INITIAL_FUEL: u64 = 1048576;

/// A run of a compiled program: the program, the host functions it may
/// call, the HTTP policy, the inputs, and the replies received so far.
pub struct Run<'a> {
    program: &'a crate::program::CompiledProgram,
    hosts: Vec<String>,
    policy: HttpPolicy,
    inputs: crate::scope::Inputs,
    replies: Vec<Result<Value, ExecutionError>>,
    fuel: u64,
    test: Option<usize>,
}

pub struct RunV {
    pub program: (Seq<char>, crate::ast::ProgramV, crate::requirements::RequirementsV),
    pub hosts: Seq<Seq<char>>,
    pub policy: HttpPolicyV,
    pub inputs: Seq<(Seq<char>, (ValueV, Visibility))>,
    pub replies: Seq<Result<ValueV, ErrV>>,
    pub fuel: nat,
    /// The test block this run runs, by position; `None` for the program.
    pub test: Option<nat>,
}

impl<'a> View for Run<'a> {
    type V = RunV;

    closed spec fn view(&self) -> RunV {
        RunV {
            program: self.program@,
            hosts: crate::engine::host_names(self.hosts@),
            policy: self.policy@,
            inputs: self.inputs@,
            replies: replies_view(self.replies@),
            fuel: self.fuel as nat,
            test: match self.test {
                Some(k) => Some(k as nat),
                None => None,
            },
        }
    }
}

impl<'a> Run<'a> {
    /// A run always has fuel left to replay with.
    pub closed spec fn wf(&self) -> bool {
        &&& self.fuel > 0
        &&& match self.test {
            Some(k) => k < self.program@.1.tests.len(),
            None => true,
        }
    }
}

/// What a step of a run ends in.
pub enum RunStep {
    /// The run finished: its result, or the error that ended it.
    Done(Result<crate::value::ExecutionResult, ExecutionError>),
    /// Send this request; step again with the response.
    Fetch(HttpRequest),
    /// Call this host function (or outside builtin) with these arguments;
    /// step again with what it returned.
    CallHost(String, Vec<Value>),
    /// Finish this floating-point operation; step again with the value.
    Float(Evaluated),
    /// The replay ran out of fuel; step again (with no reply) to go on with
    /// more.
    Again,
}

pub enum StepV {
    Done(Result<(Seq<(Seq<char>, ValueV)>, Seq<ErrV>), ErrV>),
    Fetch(HttpRequestV),
    CallHost(Seq<char>, Seq<ValueV>),
    Float(EvaluatedV),
    Again,
}

impl View for RunStep {
    type V = StepV;

    open spec fn view(&self) -> StepV {
        match self {
            RunStep::Done(Ok(r)) => StepV::Done(Ok(r@)),
            RunStep::Done(Err(e)) => StepV::Done(Err(e@)),
            RunStep::Fetch(r) => StepV::Fetch(r@),
            RunStep::CallHost(name, args) => StepV::CallHost(name@, values_view(args@)),
            RunStep::Float(x) => StepV::Float(x@),
            RunStep::Again => StepV::Again,
        }
    }
}

pub open spec fn opt_reply(reply: Option<Result<Value, ExecutionError>>) -> Option<Result<ValueV, ErrV>> {
    match reply {
        Some(r) => Some(reply_view(r)),
        None => None,
    }
}

/// A new run of `program` over `inputs`.
pub open spec fn spec_start(
    program: (Seq<char>, crate::ast::ProgramV, crate::requirements::RequirementsV),
    inputs: Seq<(Seq<char>, (ValueV, Visibility))>,
    hosts: Seq<Seq<char>>,
    policy: HttpPolicyV,
) -> RunV {
    RunV { program, hosts, policy, inputs, replies: Seq::empty(), fuel: INITIAL_FUEL as nat, test: None }
}

/// A new run of the test block at position `k` of `program`.
pub open spec fn spec_start_test(
    program: (Seq<char>, crate::ast::ProgramV, crate::requirements::RequirementsV),
    k: nat,
    hosts: Seq<Seq<char>>,
    policy: HttpPolicyV,
) -> RunV {
    RunV { program, hosts, policy, inputs: Seq::empty(), replies: Seq::empty(), fuel: INITIAL_FUEL as nat, test: Some(k) }
}

/// A block run as a whole: a `return` or `break` that leaves it is an
/// error.
pub open spec fn escaped(f: FlowV) -> FlowV {
    match f {
        FlowV::Ret(_) => FlowV::Fail(("`return` escaped its function"@, None)),
        FlowV::Brk => FlowV::Fail(("`break` escaped its loop"@, None)),
        other => other,
    }
}

/// The inputs of a test block from `i` on, each evaluated at the root and
/// bound with its visibility.
pub open spec fn ev_test_inputs(env: EnvV, fuel: nat, ins: Seq<crate::ast::TestInputV>, i: int, st: StV) -> (FlowV, StV)
    decreases ins.len() - i,
{
    if i < 0 || i >= ins.len() {
        (FlowV::Val(ValueV::Null), st)
    } else {
        let (f, st1) = ev_expr(env, fuel, ins[i].value, st);
        match f {
            FlowV::Val(v) => ev_test_inputs(env, fuel, ins, i + 1, assign_st(st1, ins[i].name, v, ins[i].visibility)),
            FlowV::Ret(_) => (FlowV::Fail(("`return` escaped while evaluating test input"@, Some(ins[i].span))), st1),
            FlowV::Brk => (FlowV::Fail(("`break` escaped while evaluating test input"@, Some(ins[i].span))), st1),
            other => (other, st1),
        }
    }
}

/// A test block: its inputs, then (when it runs the script) the program
/// with its output bound privately as `it`, then its body.
pub open spec fn ev_test(env: EnvV, fuel: nat, t: crate::ast::TestBlockV, program: Seq<StmtV>, st: StV) -> (FlowV, StV) {
    let (f1, st1) = ev_test_inputs(env, fuel, t.inputs, 0, st);
    match f1 {
        FlowV::Val(_) => {
            let (f2, st2) = if t.runs_script {
                let (g, s) = ev_block(env, fuel, program, 0, ValueV::Null, st1);
                match escaped(g) {
                    FlowV::Val(_) => (
                        FlowV::Val(ValueV::Null),
                        assign_st(s, "it"@, ValueV::Object(output_of(s.frame, s.shared)), Visibility::Private),
                    ),
                    other => (other, s),
                }
            } else {
                (FlowV::Val(ValueV::Null), st1)
            };
            match f2 {
                FlowV::Val(_) => {
                    let (g, s3) = ev_block(env, fuel, t.body, 0, ValueV::Null, st2);
                    (escaped(g), s3)
                },
                other => (other, st2),
            }
        },
        other => (other, st1),
    }
}

/// The root frame of a run over `inputs`, before anything ran.
pub open spec fn start_state(inputs: Seq<(Seq<char>, (ValueV, Visibility))>) -> StV {
    StV {
        frame: ScopeV { bindings: Seq::empty(), locals: Seq::empty(), root: true, function_frame: false },
        shared: SharedV { globals: inputs, extensions: Seq::empty() },
        next: 0,
        warnings: Seq::empty(),
    }
}

pub open spec fn doubled(fuel: nat) -> nat {
    if fuel <= u64::MAX / 2 {
        fuel * 2
    } else {
        u64::MAX as nat
    }
}

/// A step of a run: with the reply (if any) added, the program is checked
/// against its requirements and replayed from the start. It ends, asks
/// for the next outside answer, or asks to be stepped again with more
/// fuel.
pub open spec fn spec_eval_step(run: RunV, reply: Option<Result<ValueV, ErrV>>) -> (RunV, StepV) {
    let replies = match reply {
        Some(x) => run.replies.push(x),
        None => run.replies,
    };
    let r1 = RunV { replies, ..run };
    let env = EnvV { functions: run.program.1.functions, hosts: run.hosts, policy: run.policy, replies };
    match run.test {
        Some(k) => {
            let (f, st) = ev_test(env, run.fuel, run.program.1.tests[k as int], run.program.1.statements, start_state(Seq::empty()));
            step_of(r1, f, st)
        },
        None => match crate::engine::requirements_check(run.program.2.inputs, run.program.2.functions, run.inputs, run.hosts) {
            Err(e) => (r1, StepV::Done(Err(e))),
            Ok(()) => {
                let (f, st) = ev_block(env, run.fuel, run.program.1.statements, 0, ValueV::Null, start_state(run.inputs));
                step_of(r1, escaped(f), st)
            },
        },
    }
}

/// How a replay that ended in `f` ends the step.
pub open spec fn step_of(r1: RunV, f: FlowV, st: StV) -> (RunV, StepV) {
    match f {
        FlowV::Val(_) => (r1, StepV::Done(Ok((output_of(st.frame, st.shared), st.warnings)))),
        FlowV::Ret(_) => (r1, StepV::Done(Err(("`return` escaped its function"@, None)))),
        FlowV::Brk => (r1, StepV::Done(Err(("`break` escaped its loop"@, None)))),
        FlowV::Fail(e) => (r1, StepV::Done(Err(e))),
        FlowV::Need(NeedV::Host(name, args)) => (r1, StepV::CallHost(name, args)),
        FlowV::Need(NeedV::Fetch(req)) => (r1, StepV::Fetch(req)),
        FlowV::Need(NeedV::Float(x)) => (r1, StepV::Float(x)),
        FlowV::Exhausted => (RunV { fuel: doubled(r1.fuel), ..r1 }, StepV::Again),
    }
}

/// Starts a run of `program` over `inputs`, with the host functions named
/// in `host_functions` and the HTTP `policy`.
pub fn start_run<'a>(
    program: &'a crate::program::CompiledProgram,
    inputs: crate::scope::Inputs,
    host_functions: Vec<String>,
    policy: HttpPolicy,
) -> (r: Run<'a>)
    ensures
        r.wf(),
        r@ == spec_start(program@, inputs@, crate::engine::host_names(host_functions@), policy@),
{
    let r = Run { program, hosts: host_functions, policy, inputs, replies: Vec::new(), fuel: INITIAL_FUEL, test: None };
    proof {
        assert(replies_view(r.replies@) =~= Seq::<Result<ValueV, ErrV>>::empty());
    }
    r
}

/// Steps a run with the reply to what it asked last (see `spec_eval_step`).
pub fn eval_step(run: &mut Run, reply: Option<Result<Value, ExecutionError>>) -> (r: RunStep)
    requires
        old(run).wf(),
    ensures
        final(run).wf(),
        (final(run)@, r@) == spec_eval_step(old(run)@, opt_reply(reply)),
{
    match reply {
        Some(x) => {
            let ghost before = run.replies@;
            run.replies.push(x);
            proof {
                assert(replies_view(run.replies@) =~= replies_view(before).push(reply_view(x)));
            }
        },
        None => {},
    }
    let prog = run.program.program();
    let env = Env { functions: &prog.functions, hosts: &run.hosts, policy: &run.policy, replies: &run.replies };
    let flow;
    let st;
    match run.test {
        Some(k) => {
            proof {
                lemma_tests_view(prog.tests@);
            }
            let (frame, shared) = Scope::root(crate::scope::Inputs::new());
            let mut s0 = State { frame, shared, next: 0, warnings: Vec::new() };
            proof {
                assert(diagnostics_view(s0.warnings@) =~= Seq::<ErrV>::empty());
            }
            flow = eval_test(&env, run.fuel, &prog.tests[k], &prog.statements, &mut s0);
            st = s0;
        },
        None => {
            match crate::engine::check_requirements(run.program.requirements(), &run.inputs, run.hosts.as_slice()) {
                Err(e) => {
                    return RunStep::Done(Err(e));
                },
                Ok(()) => {},
            }
            let (frame, shared) = Scope::root(run.inputs.duplicate());
            let mut s0 = State { frame, shared, next: 0, warnings: Vec::new() };
            proof {
                assert(diagnostics_view(s0.warnings@) =~= Seq::<ErrV>::empty());
            }
            flow = escape(eval_block(&env, run.fuel, &prog.statements, &mut s0));
            st = s0;
        },
    }
    match flow {
        Flow::Val(_) => {
            let output = st.frame.output(&st.shared);
            RunStep::Done(Ok(crate::value::ExecutionResult::new(output, st.warnings)))
        },
        Flow::Ret(_) => RunStep::Done(Err(ExecutionError::new("`return` escaped its function", None))),
        Flow::Brk => RunStep::Done(Err(ExecutionError::new("`break` escaped its loop", None))),
        Flow::Fail(e) => RunStep::Done(Err(e)),
        Flow::Need(Need::Host(name, args)) => RunStep::CallHost(name, args),
        Flow::Need(Need::Fetch(req)) => RunStep::Fetch(req),
        Flow::Need(Need::Float(x)) => RunStep::Float(x),
        Flow::Exhausted => {
            run.fuel = if run.fuel <= u64::MAX / 2 {
                run.fuel * 2
            } else {
                u64::MAX
            };
            RunStep::Again
        },
    }
}

/// Starts a run of the test block at position `k` of `program`, with the
/// host functions named in `host_functions` and the HTTP `policy`.
pub fn start_test<'a>(
    program: &'a crate::program::CompiledProgram,
    k: usize,
    host_functions: Vec<String>,
    policy: HttpPolicy,
) -> (r: Run<'a>)
    requires
        k < program@.1.tests.len(),
    ensures
        r.wf(),
        r@ == spec_start_test(program@, k as nat, crate::engine::host_names(host_functions@), policy@),
{
    let r = Run {
        program,
        hosts: host_functions,
        policy,
        inputs: crate::scope::Inputs::new(),
        replies: Vec::new(),
        fuel: INITIAL_FUEL,
        test: Some(k),
    };
    proof {
        assert(replies_view(r.replies@) =~= Seq::<Result<ValueV, ErrV>>::empty());
    }
    r
}

/// The number of test blocks of `program`, which `start_test` takes
/// positions below.
pub fn test_count(program: &crate::program::CompiledProgram) -> (r: usize)
    ensures
        r == program@.1.tests.len(),
{
    let tests = program.tests();
    proof {
        lemma_tests_view(tests@);
    }
    tests.len()
}

fn escape(f: Flow) -> (r: Flow)
    ensures
        r@ == escaped(f@),
{
    match f {
        Flow::Ret(_) => Flow::Fail(ExecutionError::new("`return` escaped its function", None)),
        Flow::Brk => Flow::Fail(ExecutionError::new("`break` escaped its loop", None)),
        other => other,
    }
}

pub proof fn lemma_tests_view(s: Seq<crate::ast::TestBlock>)
    ensures
        crate::ast::tests_view(s).len() == s.len(),
        forall|k: int| 0 <= k < s.len() ==> crate::ast::tests_view(s)[k] == crate::ast::test_view(#[trigger] s[k]),
    decreases s.len(),
{
    if s.len() > 0 {
        lemma_tests_view(s.drop_last());
        assert forall|k: int| 0 <= k < s.len() implies crate::ast::tests_view(s)[k] == crate::ast::test_view(#[trigger] s[k]) by {
            if k < s.len() - 1 {
                assert(s.drop_last()[k] == s[k]);
            }
        }
    }
}

pub proof fn lemma_test_inputs_view(s: Seq<crate::ast::TestInput>)
    ensures
        crate::ast::test_inputs_view(s).len() == s.len(),
        forall|k: int| 0 <= k < s.len() ==> crate::ast::test_inputs_view(s)[k] == crate::ast::test_input_view(#[trigger] s[k]),
    decreases s.len(),
{
    if s.len() > 0 {
        lemma_test_inputs_view(s.drop_last());
        assert forall|k: int| 0 <= k < s.len() implies crate::ast::test_inputs_view(s)[k] == crate::ast::test_input_view(#[trigger] s[k]) by {
            if k < s.len() - 1 {
                assert(s.drop_last()[k] == s[k]);
            }
        }
    }
}

/// A test block (see `ev_test`).
fn eval_test(env: &Env, fuel: u64, t: &crate::ast::TestBlock, program: &Vec<Statement>, st: &mut State) -> (r: Flow)
    ensures
        (r@, final(st)@) == ev_test(env@, fuel as nat, crate::ast::test_view(*t), stmts_view(program@), old(st)@),
{
    let ghost iv = crate::ast::test_inputs_view(t.inputs@);
    let ghost target = ev_test_inputs(env@, fuel as nat, iv, 0, st@);
    proof {
        lemma_test_inputs_view(t.inputs@);
    }
    let mut i: usize = 0;
    while i < t.inputs.len()
        invariant
            iv == crate::ast::test_inputs_view(t.inputs@),
            iv.len() == t.inputs@.len(),
            forall|k: int| 0 <= k < t.inputs@.len() ==> iv[k] == crate::ast::test_input_view(#[trigger] t.inputs@[k]),
            i <= t.inputs@.len(),
            target == ev_test_inputs(env@, fuel as nat, iv, 0, old(st)@),
            target == ev_test_inputs(env@, fuel as nat, iv, i as int, st@),
        decreases t.inputs@.len() - i,
    {
        let input = &t.inputs[i];
        let f = eval_expr(env, fuel, &input.value, st);
        match f {
            Flow::Val(v) => {
                st.frame.assign(&mut st.shared, input.name.as_str(), v, input.visibility);
            },
            Flow::Ret(_) => {
                return Flow::Fail(ExecutionError::new("`return` escaped while evaluating test input", Some(input.span)));
            },
            Flow::Brk => {
                return Flow::Fail(ExecutionError::new("`break` escaped while evaluating test input", Some(input.span)));
            },
            other => {
                return other;
            },
        }
        i = i + 1;
    }
    if t.runs_script {
        let g = escape(eval_block(env, fuel, program, st));
        match g {
            Flow::Val(_) => {
                let out = st.frame.output(&st.shared);
                st.frame.assign(&mut st.shared, "it", object_value(out), Visibility::Private);
            },
            other => {
                return other;
            },
        }
    }
    escape(eval_block(env, fuel, &t.body, st))
}

// ---------------------------------------------------------------------------
// Laws
// ---------------------------------------------------------------------------

/// `false && e` is false and `true || e` is true without evaluating `e`:
/// the result and the state are those the left operand left.
pub proof fn law_and_short_circuits(env: EnvV, fuel: nat, e: ExprV, st: StV)
    requires
        e.kind matches ExprKindV::Binary { left, operator, right } && (
            (operator is And && ev_expr(env, fuel, *left, st).0 == FlowV::Val(ValueV::Boolean(false)))
            || (operator is Or && ev_expr(env, fuel, *left, st).0 == FlowV::Val(ValueV::Boolean(true)))),
    ensures
        e.kind matches ExprKindV::Binary { left, .. } && ev_expr(env, fuel, e, st) == ev_expr(env, fuel, *left, st),
{
}

/// No entry of `m` is named `name`.
pub open spec fn unnamed<V>(m: Seq<(Seq<char>, V)>, name: Seq<char>) -> bool {
    forall|k: int| 0 <= k < m.len() ==> #[trigger] m[k].0 != name
}

proof fn lemma_first_field_none<V>(m: Seq<(Seq<char>, V)>, name: Seq<char>, i: int)
    requires
        unnamed(m, name),
        0 <= i,
    ensures
        crate::input::first_field_from(m, name, i) is None,
    decreases m.len() - i,
{
    if i < m.len() {
        assert(m[i].0 != name);
        lemma_first_field_none(m, name, i + 1);
    }
}

proof fn lemma_public_into_skips(
    out: Seq<(Seq<char>, ValueV)>,
    m: Seq<(Seq<char>, (ValueV, Visibility))>,
    only_locals: bool,
    locals: Seq<Seq<char>>,
    name: Seq<char>,
)
    requires
        unnamed(m, name),
    ensures
        entry_get(crate::scope::public_into(out, m, only_locals, locals), name) == entry_get(out, name),
    decreases m.len(),
{
    if m.len() > 0 {
        let before = crate::scope::public_into(out, m.drop_last(), only_locals, locals);
        assert(unnamed(m.drop_last(), name)) by {
            assert forall|k: int| 0 <= k < m.drop_last().len() implies #[trigger] m.drop_last()[k].0 != name by {
                assert(m.drop_last()[k] == m[k]);
            }
        }
        lemma_public_into_skips(out, m.drop_last(), only_locals, locals, name);
        assert(m.last().0 != name) by {
            assert(m[m.len() - 1].0 != name);
        }
        crate::value::law_object_get_after_insert(before, m.last().0, m.last().1.0, name);
    }
}

proof fn lemma_all_into_skips(out: Seq<(Seq<char>, ValueV)>, m: Seq<(Seq<char>, ValueV)>, name: Seq<char>)
    requires
        unnamed(m, name),
    ensures
        entry_get(crate::scope::all_into(out, m), name) == entry_get(out, name),
    decreases m.len(),
{
    if m.len() > 0 {
        assert(unnamed(m.drop_last(), name)) by {
            assert forall|k: int| 0 <= k < m.drop_last().len() implies #[trigger] m.drop_last()[k].0 != name by {
                assert(m.drop_last()[k] == m[k]);
            }
        }
        lemma_all_into_skips(out, m.drop_last(), name);
        assert(m.last().0 != name) by {
            assert(m[m.len() - 1].0 != name);
        }
        crate::value::law_object_get_after_insert(crate::scope::all_into(out, m.drop_last()), m.last().0, m.last().1, name);
    }
}

/// What a run outputs is what its root assigned publicly: assigning a
/// fresh name publicly at the root makes the output hold that value under
/// that name, and assigning it privately (a `_` name, or a private input)
/// leaves the output as it was.
pub proof fn law_output_is_public_assignments(s: ScopeV, g: SharedV, name: Seq<char>, v: ValueV)
    requires
        s.root,
        unnamed(g.globals, name),
        unnamed(s.bindings, name),
        unnamed(g.extensions, name),
    ensures
        ({
            let (s1, g1) = assigned(s, g, name, v, Visibility::Public);
            entry_get(output_of(s1, g1), name) == Some(v)
        }),
        ({
            let (s2, g2) = assigned(s, g, name, v, Visibility::Private);
            output_of(s2, g2) == output_of(s, g)
        }),
{
    lemma_first_field_none(g.globals, name, 0);
    let pushed_public = g.globals.push((name, (v, Visibility::Public)));
    let pushed_private = g.globals.push((name, (v, Visibility::Private)));
    assert(pushed_public.drop_last() =~= g.globals);
    assert(pushed_private.drop_last() =~= g.globals);
    let globals = crate::scope::public_into(Seq::empty(), g.globals, false, Seq::empty());
    let with_name = crate::scope::public_into(Seq::empty(), pushed_public, false, Seq::empty());
    assert(with_name == entry_insert(globals, name, v));
    crate::value::law_object_get_after_insert(globals, name, v, name);
    lemma_public_into_skips(with_name, s.bindings, true, s.locals, name);
    lemma_all_into_skips(
        crate::scope::public_into(with_name, s.bindings, true, s.locals),
        g.extensions,
        name,
    );
    assert(crate::scope::public_into(Seq::empty(), pushed_private, false, Seq::empty()) == globals);
}

/// The items of `items` from `i` on whose entry in `bs` is `true`, in
/// order.
pub open spec fn kept(items: Seq<ValueV>, bs: Seq<ValueV>, i: int) -> Seq<ValueV>
    decreases items.len() - i,
{
    if i < 0 || i >= items.len() {
        Seq::empty()
    } else {
        (if bs[i] == ValueV::Boolean(true) { seq![items[i]] } else { Seq::empty() }) + kept(items, bs, i + 1)
    }
}

/// What `map` gives extends what it was given: one value per item left.
proof fn lemma_map_extends(
    env: EnvV,
    fuel: nat,
    body: ExprV,
    param: Seq<char>,
    items: Seq<ValueV>,
    i: int,
    acc: Seq<ValueV>,
    span: Span,
    st: StV,
)
    requires
        0 <= i <= items.len(),
    ensures
        ev_items(env, fuel, body, "map"@, param, items, i, acc, span, st).0 matches FlowV::Val(ValueV::Array(out))
            ==> out.len() == acc.len() + items.len() - i && out.take(acc.len() as int) == acc,
    decreases items.len() - i,
{
    if i < items.len() {
        let item = items[i];
        let inner = assign_st(with_frame(st, child_of(st.frame)), param, item, Visibility::Private);
        let (f, st1) = ev_expr(env, fuel, body, inner);
        let back = with_frame(st1, st.frame);
        match f {
            FlowV::Val(v) => {
                lemma_map_extends(env, fuel, body, param, items, i + 1, acc.push(v), span, back);
                let r = ev_items(env, fuel, body, "map"@, param, items, i + 1, acc.push(v), span, back);
                match r.0 {
                    FlowV::Val(ValueV::Array(out)) => {
                        assert(out.take(acc.len() as int) =~= out.take(acc.len() + 1int).take(acc.len() as int));
                        assert(acc.push(v).take(acc.len() as int) =~= acc);
                    },
                    _ => {},
                }
            },
            _ => {},
        }
    } else {
        assert(acc.take(acc.len() as int) =~= acc);
    }
}

proof fn lemma_filter_keeps(
    env: EnvV,
    fuel: nat,
    body: ExprV,
    param: Seq<char>,
    items: Seq<ValueV>,
    i: int,
    accm: Seq<ValueV>,
    accf: Seq<ValueV>,
    bs: Seq<ValueV>,
    span: Span,
    st: StV,
)
    requires
        0 <= i <= items.len(),
        accm.len() == i,
        ev_items(env, fuel, body, "map"@, param, items, i, accm, span, st).0 == FlowV::Val(ValueV::Array(bs)),
        forall|k: int| 0 <= k < bs.len() ==> #[trigger] bs[k] is Boolean,
    ensures
        ev_items(env, fuel, body, "filter"@, param, items, i, accf, span, st)
            == (FlowV::Val(ValueV::Array(accf + kept(items, bs, i))), ev_items(env, fuel, body, "map"@, param, items, i, accm, span, st).1),
    decreases items.len() - i,
{
    reveal_strlit("map");
    reveal_strlit("filter");
    reveal_strlit("any");
    reveal_strlit("all");
    reveal_strlit("find");
    assert("filter"@.len() == 6 && "map"@.len() == 3 && "any"@.len() == 3 && "all"@.len() == 3 && "find"@.len() == 4);
    assert("filter"@ != "map"@);
    assert("filter"@ != "any"@);
    assert("filter"@ != "all"@);
    assert("filter"@ != "find"@);
    if i >= items.len() {
        assert(accf + kept(items, bs, i) =~= accf);
    } else {
        let item = items[i];
        let inner = assign_st(with_frame(st, child_of(st.frame)), param, item, Visibility::Private);
        let (f, st1) = ev_expr(env, fuel, body, inner);
        let back = with_frame(st1, st.frame);
        match f {
            FlowV::Val(v) => {
                lemma_map_extends(env, fuel, body, param, items, i + 1, accm.push(v), span, back);
                assert(bs.take(i + 1)[i] == v);
                assert(bs[i] == v);
                match v {
                    ValueV::Boolean(keep) => {
                        let next = if keep { accf.push(item) } else { accf };
                        lemma_filter_keeps(env, fuel, body, param, items, i + 1, accm.push(v), next, bs, span, back);
                        if keep {
                            assert(next + kept(items, bs, i + 1) =~= accf + kept(items, bs, i));
                        } else {
                            assert(next + kept(items, bs, i + 1) =~= accf + kept(items, bs, i));
                        }
                    },
                    _ => {},
                }
            },
            _ => {},
        }
    }
}

/// `filter` keeps exactly the items its lambda accepts, in order: when the
/// lambda, run on each item as `map` runs it, gives booleans `bs`, `filter`
/// gives the items whose entry in `bs` is `true`, and leaves the run in the
/// same state as `map`.
pub proof fn law_filter_keeps_the_items_its_lambda_accepts(
    env: EnvV,
    fuel: nat,
    body: ExprV,
    param: Seq<char>,
    items: Seq<ValueV>,
    span: Span,
    st: StV,
)
    requires
        ev_items(env, fuel, body, "map"@, param, items, 0, Seq::empty(), span, st).0 matches FlowV::Val(ValueV::Array(bs))
            && forall|k: int| 0 <= k < bs.len() ==> #[trigger] bs[k] is Boolean,
    ensures
        ev_items(env, fuel, body, "map"@, param, items, 0, Seq::empty(), span, st).0 matches FlowV::Val(ValueV::Array(bs))
            && bs.len() == items.len()
            && ev_items(env, fuel, body, "filter"@, param, items, 0, Seq::empty(), span, st)
                == (FlowV::Val(ValueV::Array(kept(items, bs, 0))), ev_items(env, fuel, body, "map"@, param, items, 0, Seq::empty(), span, st).1),
{
    let bs = ev_items(env, fuel, body, "map"@, param, items, 0, Seq::empty(), span, st).0->Val_0->Array_0;
    lemma_map_extends(env, fuel, body, param, items, 0, Seq::empty(), span, st);
    lemma_filter_keeps(env, fuel, body, param, items, 0, Seq::empty(), Seq::empty(), bs, span, st);
    assert(Seq::<ValueV>::empty() + kept(items, bs, 0) =~= kept(items, bs, 0));
}

/// The first item from `i` on whose entry in `bs` is `true`, or null.
pub open spec fn first_accepted(items: Seq<ValueV>, bs: Seq<ValueV>, i: int) -> ValueV
    decreases items.len() - i,
{
    if i < 0 || i >= items.len() {
        ValueV::Null
    } else if bs[i] == ValueV::Boolean(true) {
        items[i]
    } else {
        first_accepted(items, bs, i + 1)
    }
}

proof fn lemma_predicates(
    env: EnvV,
    fuel: nat,
    body: ExprV,
    param: Seq<char>,
    items: Seq<ValueV>,
    i: int,
    accm: Seq<ValueV>,
    bs: Seq<ValueV>,
    span: Span,
    st: StV,
)
    requires
        0 <= i <= items.len(),
        accm.len() == i,
        ev_items(env, fuel, body, "map"@, param, items, i, accm, span, st).0 == FlowV::Val(ValueV::Array(bs)),
        forall|k: int| 0 <= k < bs.len() ==> #[trigger] bs[k] is Boolean,
    ensures
        bs.len() == items.len(),
        ev_items(env, fuel, body, "any"@, param, items, i, Seq::empty(), span, st).0
            == FlowV::Val(ValueV::Boolean(exists|k: int| i <= k < items.len() && #[trigger] bs[k] == ValueV::Boolean(true))),
        ev_items(env, fuel, body, "all"@, param, items, i, Seq::empty(), span, st).0
            == FlowV::Val(ValueV::Boolean(forall|k: int| i <= k < items.len() ==> #[trigger] bs[k] == ValueV::Boolean(true))),
        ev_items(env, fuel, body, "find"@, param, items, i, Seq::empty(), span, st).0
            == FlowV::Val(first_accepted(items, bs, i)),
    decreases items.len() - i,
{
    reveal_strlit("map");
    reveal_strlit("filter");
    reveal_strlit("any");
    reveal_strlit("all");
    reveal_strlit("find");
    assert("filter"@.len() == 6 && "map"@.len() == 3 && "any"@.len() == 3 && "all"@.len() == 3 && "find"@.len() == 4);
    assert("any"@[0] != "map"@[0] && "all"@[0] != "map"@[0] && "any"@[1] != "all"@[1]);
    assert("any"@ != "map"@ && "all"@ != "map"@ && "find"@ != "map"@);
    assert("any"@ != "filter"@ && "all"@ != "filter"@ && "find"@ != "filter"@);
    assert("any"@ != "all"@ && "any"@ != "find"@ && "all"@ != "find"@);
    lemma_map_extends(env, fuel, body, param, items, i, accm, span, st);
    if i < items.len() {
        let item = items[i];
        let inner = assign_st(with_frame(st, child_of(st.frame)), param, item, Visibility::Private);
        let (f, st1) = ev_expr(env, fuel, body, inner);
        let back = with_frame(st1, st.frame);
        match f {
            FlowV::Val(v) => {
                lemma_map_extends(env, fuel, body, param, items, i + 1, accm.push(v), span, back);
                assert(bs.take(i + 1)[i] == v);
                assert(bs[i] == v);
                lemma_predicates(env, fuel, body, param, items, i + 1, accm.push(v), bs, span, back);
                match v {
                    ValueV::Boolean(keep) => {
                        if keep {
                            assert(i <= i < items.len() && bs[i] == ValueV::Boolean(true));
                        } else {
                            assert((exists|k: int| i <= k < items.len() && #[trigger] bs[k] == ValueV::Boolean(true))
                                == (exists|k: int| i + 1 <= k < items.len() && #[trigger] bs[k] == ValueV::Boolean(true))) by {
                                if exists|k: int| i <= k < items.len() && #[trigger] bs[k] == ValueV::Boolean(true) {
                                    let k = choose|k: int| i <= k < items.len() && #[trigger] bs[k] == ValueV::Boolean(true);
                                    assert(k != i);
                                }
                            }
                            assert(!(bs[i] == ValueV::Boolean(true)));
                        }
                    },
                    _ => {},
                }
            },
            _ => {},
        }
    }
}

/// `any`, `all` and `find` ask the lambda's verdicts as `map` would: when
/// the lambda, run on each item as `map` runs it, gives booleans `bs`,
/// `any` is whether some verdict is `true`, `all` whether every one is,
/// and `find` is the first item whose verdict is `true` (null if none).
pub proof fn law_predicates_follow_the_lambda(
    env: EnvV,
    fuel: nat,
    body: ExprV,
    param: Seq<char>,
    items: Seq<ValueV>,
    span: Span,
    st: StV,
)
    requires
        ev_items(env, fuel, body, "map"@, param, items, 0, Seq::empty(), span, st).0 matches FlowV::Val(ValueV::Array(bs))
            && forall|k: int| 0 <= k < bs.len() ==> #[trigger] bs[k] is Boolean,
    ensures
        ev_items(env, fuel, body, "map"@, param, items, 0, Seq::empty(), span, st).0 matches FlowV::Val(ValueV::Array(bs))
            && bs.len() == items.len()
            && ev_items(env, fuel, body, "any"@, param, items, 0, Seq::empty(), span, st).0
                == FlowV::Val(ValueV::Boolean(exists|k: int| 0 <= k < items.len() && #[trigger] bs[k] == ValueV::Boolean(true)))
            && ev_items(env, fuel, body, "all"@, param, items, 0, Seq::empty(), span, st).0
                == FlowV::Val(ValueV::Boolean(forall|k: int| 0 <= k < items.len() ==> #[trigger] bs[k] == ValueV::Boolean(true)))
            && ev_items(env, fuel, body, "find"@, param, items, 0, Seq::empty(), span, st).0
                == FlowV::Val(first_accepted(items, bs, 0)),
{
    let bs = ev_items(env, fuel, body, "map"@, param, items, 0, Seq::empty(), span, st).0->Val_0->Array_0;
    lemma_predicates(env, fuel, body, param, items, 0, Seq::empty(), bs, span, st);
}

} // verus!
