//! Static checks of a program and the inference of what it requires from
//! its host: the inputs it reads, with the constraints their uses imply,
//! and the host functions it calls.

use vstd::prelude::*;
use crate::ast::{
    Expression, ExpressionKind, InterpolatedStringPart, ObjectField, Statement, StatementKind,
    SwitchArm, SwitchPattern, BinaryOperator, ExprV, ExprKindV, IPartV, FieldV, ArmV, PatternV,
    TestInputV, TestBlockV, FunctionV, ProgramV, Program, TestBlock, TestInput, FunctionDefinition,
    test_view, tests_view, test_inputs_view, function_view, functions_view, program_view, strings_view,
    StmtV, StmtKindV, expr_view, exprs_view, iparts_view, fields_view, arms_view, stmt_view,
    stmts_view, lemma_exprs_index, lemma_exprs_len, lemma_iparts_index, lemma_iparts_len,
    lemma_fields_index, lemma_fields_len, lemma_arms_index, lemma_arms_len, lemma_stmts_index,
    lemma_stmts_len,
};
use crate::diagnostic::{CompileError, Diagnostic, DiagnosticV, diag};
use crate::functions::{builtin_function, builtin_kind};
use crate::requirements::{
    FunctionIdentity, IdentityV, InputConstraint, Requirements, RequirementsV, InputV,
    combine_constraint, input_index, requirements_wf, spec_require_function, spec_require_input,
};
use crate::resolve::{name_set, contains_name, add_name, copy_names, r_stmts, resolve_stmts};
use crate::source::Span;
use crate::text::{str_eq, string_push_str};

verus! {

// ---------------------------------------------------------------------------
// The checks, as spec functions
// ---------------------------------------------------------------------------

/// Where a check happens.
#[derive(Clone, Copy)]
pub struct ValidationContext {
    pub in_function: bool,
    pub in_test: bool,
    pub in_loop: bool,
}

/// What the checks have found so far, and the names bound globally (by
/// `extend`) in the scope being checked.
pub struct VState {
    pub reqs: RequirementsV,
    pub diags: Seq<DiagnosticV>,
    pub globals: Set<Seq<char>>,
}

/// The names bound in a scope, the local (parameter) names, and whether
/// `it` is available.
pub struct ScopeV {
    pub bindings: Set<Seq<char>>,
    pub locals: Set<Seq<char>>,
    pub it_available: bool,
}

pub open spec fn report(st: VState, message: Seq<char>, span: Span) -> VState {
    VState { diags: st.diags.push(diag(message, span)), ..st }
}

pub open spec fn child(sc: ScopeV, it_available: bool) -> ScopeV {
    ScopeV { it_available, ..sc }
}

/// Messages with a name in backquotes.
pub open spec fn quoted(before: Seq<char>, name: Seq<char>, after: Seq<char>) -> Seq<char> {
    before + name + after
}

/// The kind a literal receiver has, for the methods that cannot take it.
pub open spec fn literal_receiver(e: ExprV) -> Option<Seq<char>> {
    match e.kind {
        ExprKindV::Number(_) => Some("number"@),
        ExprKindV::Boolean(_) => Some("boolean"@),
        ExprKindV::Null => Some("null"@),
        _ => None,
    }
}

pub open spec fn html_method(name: Seq<char>) -> bool {
    name == "css"@ || name == "regex"@ || name == "text"@ || name == "attr"@ || name == "html"@
}

/// `validate_method`: an error for an HTML method called on a literal.
pub open spec fn check_method(st: VState, receiver: ExprV, name: Seq<char>, span: Span) -> VState {
    match literal_receiver(receiver) {
        Some(kind) => if html_method(name) {
            report(st, quoted("method `"@, name, "` cannot be called on a "@) + kind, span)
        } else {
            st
        },
        None => st,
    }
}

/// `constrain`: a constraint on the input that a variable reads.
pub open spec fn constrain(st: VState, e: ExprV, c: InputConstraint, span: Span) -> VState {
    match e.kind {
        ExprKindV::Variable(name) => match input_index(st.reqs.inputs, name) {
            Some(i) => match combine_constraint(st.reqs.inputs[i].constraint, c) {
                Ok(next) => VState {
                    reqs: RequirementsV {
                        inputs: st.reqs.inputs.update(i, InputV { constraint: next, ..st.reqs.inputs[i] }),
                        ..st.reqs
                    },
                    ..st
                },
                Err(_) => report(st, quoted("input `"@, name, "` has incompatible inferred constraints"@), span),
            },
            None => st,
        },
        _ => st,
    }
}

/// Whether `!` may follow `inner`: a `css` or `regex` method call, or a
/// call of `css`, `css@`, `regex` or `regex@`.
pub open spec fn requirable(inner: ExprV) -> bool {
    match inner.kind {
        ExprKindV::MethodCall { name, .. } => name == "css"@ || name == "regex"@,
        ExprKindV::FunctionCall { name, .. } => name == "css"@ || name == "css@"@ || name == "regex"@ || name == "regex@"@,
        _ => false,
    }
}

pub open spec fn arithmetic(op: BinaryOperator) -> bool {
    op == BinaryOperator::Add || op == BinaryOperator::Subtract || op == BinaryOperator::Multiply
        || op == BinaryOperator::Divide || op == BinaryOperator::Remainder
}

/// Checks an expression; `value` tells whether its value is used.
pub open spec fn v_expr(st: VState, e: ExprV, sc: ScopeV, ctx: ValidationContext, value: bool, fns: Set<Seq<char>>) -> (VState, ScopeV)
    decreases e, 0int,
{
    match e.kind {
        ExprKindV::InterpolatedString(parts) => v_parts(st, parts, sc, ctx, fns, 0),
        ExprKindV::Array(values) => v_exprs(st, values, sc, ctx, fns, 0),
        ExprKindV::Object(fields) => v_fields(st, fields, sc, ctx, fns, 0),
        ExprKindV::Variable(name) => if sc.locals.contains(name) {
            (st, sc)
        } else if name == "it"@ {
            if !sc.it_available {
                (report(st, "`it` is only available inside functional blocks"@, e.span), sc)
            } else {
                (st, sc)
            }
        } else if !(sc.bindings.contains(name) || st.globals.contains(name)) {
            (VState { reqs: spec_require_input(st.reqs, name, e.span).0, ..st }, sc)
        } else {
            (st, sc)
        },
        ExprKindV::Identifier(name) => if !sc.locals.contains(name) {
            (report(st, quoted("unresolved local identifier `"@, name, "`"@), e.span), sc)
        } else {
            (st, sc)
        },
        ExprKindV::FunctionCall { name, arguments } => {
            let r = v_exprs(st, arguments, sc, ctx, fns, 0);
            if ctx.in_test && name == "assertEq"@ {
                r
            } else if builtin_kind(name) is None && !fns.contains(name) {
                (VState {
                    reqs: spec_require_function(r.0.reqs, IdentityV::Unqualified(name), arguments.len() as usize, e.span),
                    ..r.0
                }, r.1)
            } else {
                r
            }
        },
        ExprKindV::QualifiedFunctionCall { module, name, arguments } => {
            let st1 = VState {
                reqs: spec_require_function(st.reqs, IdentityV::Qualified(module, name), arguments.len() as usize, e.span),
                ..st
            };
            v_exprs(st1, arguments, sc, ctx, fns, 0)
        },
        ExprKindV::CoreCall { name, arguments } => {
            let r = v_exprs(st, arguments, sc, ctx, fns, 0);
            if name == "extend"@ && arguments.len() == 1 && arguments[0].kind is Object {
                bind_fields(r.0, r.1, arguments[0].kind->Object_0, 0)
            } else {
                r
            }
        },
        ExprKindV::MethodCall { receiver, name, arguments, .. } => {
            let r1 = v_expr(st, *receiver, sc, ctx, true, fns);
            let r2 = v_exprs(r1.0, arguments, r1.1, ctx, fns, 0);
            let st3 = check_method(r2.0, *receiver, name, e.span);
            let st4 = if name == "css"@ { constrain(st3, *receiver, InputConstraint::HtmlLike, e.span) } else { st3 };
            (st4, r2.1)
        },
        ExprKindV::Lambda { parameters, body } => {
            let inner = ScopeV { locals: sc.locals + parameters.to_set(), ..sc };
            (v_expr(st, *body, inner, ctx, true, fns).0, sc)
        },
        ExprKindV::FunctionalBlock { receiver, body, .. } => {
            let r = v_expr(st, *receiver, sc, ctx, true, fns);
            (v_stmts(r.0, body, child(r.1, true), ctx, fns, false, 0).0, r.1)
        },
        ExprKindV::Required(inner) => {
            let r = v_expr(st, *inner, sc, ctx, true, fns);
            if !requirable(*inner) {
                (report(r.0, "`!` is only valid after `css`, `css@`, or `regex`"@, e.span), r.1)
            } else {
                r
            }
        },
        ExprKindV::Unary { operand, .. } => v_expr(st, *operand, sc, ctx, true, fns),
        ExprKindV::Binary { left, operator, right } => {
            let r1 = v_expr(st, *left, sc, ctx, true, fns);
            let r2 = v_expr(r1.0, *right, r1.1, ctx, true, fns);
            if arithmetic(operator) {
                let st3 = constrain(r2.0, *left, InputConstraint::NumberLike, left.span);
                (constrain(st3, *right, InputConstraint::NumberLike, right.span), r2.1)
            } else {
                r2
            }
        },
        ExprKindV::IfElse { condition, then_branch, else_branch } => {
            let r1 = v_expr(st, *condition, sc, ctx, true, fns);
            let r2 = v_expr(r1.0, *then_branch, r1.1, ctx, true, fns);
            v_expr(r2.0, *else_branch, r2.1, ctx, true, fns)
        },
        ExprKindV::BlockIf { condition, then_branch, else_branch } => {
            let r1 = v_expr(st, *condition, sc, ctx, true, fns);
            let st2 = if value && else_branch is None {
                report(r1.0, "block `if` used as a value requires an `else` branch"@, e.span)
            } else {
                r1.0
            };
            let r3 = v_stmts(st2, then_branch, r1.1, ctx, fns, value, 0);
            match else_branch {
                Some(b) => v_stmts(r3.0, b, r3.1, ctx, fns, value, 0),
                None => r3,
            }
        },
        ExprKindV::Switch { target, arms } => {
            let r1 = v_expr(st, *target, sc, ctx, true, fns);
            v_arms(r1.0, arms, r1.1, ctx, fns, 0)
        },
        ExprKindV::Subscript { receiver, index } => {
            let r1 = v_expr(st, *receiver, sc, ctx, true, fns);
            v_expr(r1.0, *index, r1.1, ctx, true, fns)
        },
        _ => (st, sc),
    }
}

/// `extend({...})` binds each field name globally.
pub open spec fn bind_fields(st: VState, sc: ScopeV, fields: Seq<FieldV>, i: int) -> (VState, ScopeV)
    decreases fields.len() - i,
{
    if i < 0 || i >= fields.len() {
        (st, sc)
    } else {
        bind_fields(
            VState { globals: st.globals.insert(fields[i].name), ..st },
            ScopeV { bindings: sc.bindings.insert(fields[i].name), ..sc },
            fields,
            i + 1,
        )
    }
}

pub open spec fn v_exprs(st: VState, es: Seq<ExprV>, sc: ScopeV, ctx: ValidationContext, fns: Set<Seq<char>>, i: int) -> (VState, ScopeV)
    decreases es, es.len() - i,
{
    if i < 0 || i >= es.len() {
        (st, sc)
    } else {
        let r = v_expr(st, es[i], sc, ctx, true, fns);
        v_exprs(r.0, es, r.1, ctx, fns, i + 1)
    }
}

pub open spec fn v_parts(st: VState, parts: Seq<IPartV>, sc: ScopeV, ctx: ValidationContext, fns: Set<Seq<char>>, i: int) -> (VState, ScopeV)
    decreases parts, parts.len() - i,
{
    if i < 0 || i >= parts.len() {
        (st, sc)
    } else {
        match parts[i] {
            IPartV::Expression(x) => {
                let r = v_expr(st, x, sc, ctx, true, fns);
                v_parts(r.0, parts, r.1, ctx, fns, i + 1)
            },
            IPartV::Literal(_) => v_parts(st, parts, sc, ctx, fns, i + 1),
        }
    }
}

pub open spec fn v_fields(st: VState, fields: Seq<FieldV>, sc: ScopeV, ctx: ValidationContext, fns: Set<Seq<char>>, i: int) -> (VState, ScopeV)
    decreases fields, fields.len() - i,
{
    if i < 0 || i >= fields.len() {
        (st, sc)
    } else {
        let r = v_expr(st, fields[i].value, sc, ctx, true, fns);
        v_fields(r.0, fields, r.1, ctx, fns, i + 1)
    }
}

pub open spec fn v_arms(st: VState, arms: Seq<ArmV>, sc: ScopeV, ctx: ValidationContext, fns: Set<Seq<char>>, i: int) -> (VState, ScopeV)
    decreases arms, arms.len() - i,
{
    if i < 0 || i >= arms.len() {
        (st, sc)
    } else {
        let arm = arms[i];
        match arm.pattern {
            PatternV::Value(p) => {
                let r1 = v_expr(st, p, sc, ctx, true, fns);
                let r2 = v_expr(r1.0, arm.value, r1.1, ctx, true, fns);
                v_arms(r2.0, arms, r2.1, ctx, fns, i + 1)
            },
            PatternV::Wildcard => {
                let r = v_expr(st, arm.value, sc, ctx, true, fns);
                v_arms(r.0, arms, r.1, ctx, fns, i + 1)
            },
            PatternV::Binding(name) => {
                let inner = ScopeV { locals: sc.locals.insert(name), ..sc };
                let st2 = v_expr(st, arm.value, inner, ctx, true, fns).0;
                v_arms(st2, arms, sc, ctx, fns, i + 1)
            },
        }
    }
}

pub open spec fn v_stmt(st: VState, s: StmtV, sc: ScopeV, ctx: ValidationContext, fns: Set<Seq<char>>, value: bool) -> (VState, ScopeV)
    decreases s, 0int,
{
    match s.kind {
        StmtKindV::Assignment { name, value: v, .. } => {
            let r = v_expr(st, v, sc, ctx, true, fns);
            (r.0, ScopeV { bindings: r.1.bindings.insert(name), ..r.1 })
        },
        StmtKindV::ComputedAssignment { name, value: v } => {
            let r1 = v_expr(st, name, sc, ctx, true, fns);
            v_expr(r1.0, v, r1.1, ctx, true, fns)
        },
        StmtKindV::Return(v) => {
            let st1 = if !ctx.in_function { report(st, "`return` is only valid inside a function"@, s.span) } else { st };
            v_expr(st1, v, sc, ctx, true, fns)
        },
        StmtKindV::While { condition, body } => {
            let r = v_expr(st, condition, sc, ctx, true, fns);
            v_stmts(r.0, body, r.1, ValidationContext { in_loop: true, ..ctx }, fns, false, 0)
        },
        StmtKindV::Loop { body } => v_stmts(st, body, sc, ValidationContext { in_loop: true, ..ctx }, fns, false, 0),
        StmtKindV::Break => if !ctx.in_loop {
            (report(st, "`break` is only valid inside a loop"@, s.span), sc)
        } else {
            (st, sc)
        },
        StmtKindV::Expression(x) => v_expr(st, x, sc, ctx, value, fns),
    }
}

/// Checks statements from `i` on; the last one's value is used when
/// `value_required`.
pub open spec fn v_stmts(
    st: VState,
    stmts: Seq<StmtV>,
    sc: ScopeV,
    ctx: ValidationContext,
    fns: Set<Seq<char>>,
    value_required: bool,
    i: int,
) -> (VState, ScopeV)
    decreases stmts, stmts.len() - i,
{
    if i < 0 || i >= stmts.len() {
        (st, sc)
    } else {
        let r = v_stmt(st, stmts[i], sc, ctx, fns, value_required && i + 1 == stmts.len());
        v_stmts(r.0, stmts, r.1, ctx, fns, value_required, i + 1)
    }
}

// ---------------------------------------------------------------------------
// The checks, executable
// ---------------------------------------------------------------------------

/// The checker's state: the requirements inferred so far, the diagnostics,
/// the script's own functions, and the names bound globally in the scope
/// being checked.
pub struct Validator {
    requirements: Requirements,
    diagnostics: Vec<Diagnostic>,
    script_functions: Vec<String>,
    globals: Vec<String>,
}

pub open spec fn diag_views(s: Seq<Diagnostic>) -> Seq<DiagnosticV> {
    crate::diagnostic::diags_view(s)
}

impl Validator {
    pub closed spec fn state(&self) -> VState {
        VState { reqs: self.requirements@, diags: diag_views(self.diagnostics@), globals: name_set(self.globals@) }
    }

    pub closed spec fn fns(&self) -> Set<Seq<char>> {
        name_set(self.script_functions@)
    }

    pub closed spec fn wf(&self) -> bool {
        requirements_wf(self.requirements@)
    }
}

/// A scope's names.
struct Scope {
    bindings: Vec<String>,
    locals: Vec<String>,
    it_available: bool,
}

spec fn scope_view(s: Scope) -> ScopeV {
    ScopeV { bindings: name_set(s.bindings@), locals: name_set(s.locals@), it_available: s.it_available }
}

fn copy_scope(s: &Scope, it_available: bool) -> (r: Scope)
    ensures
        scope_view(r) == child(scope_view(*s), it_available),
{
    Scope { bindings: copy_names(&s.bindings), locals: copy_names(&s.locals), it_available }
}

proof fn lemma_name_set_strings(s: Seq<String>)
    ensures
        name_set(s) == crate::ast::strings_view(s).to_set(),
{
    crate::ast::lemma_strings_len(s);
    let v = crate::ast::strings_view(s);
    assert forall|x: Seq<char>| name_set(s).contains(x) <==> v.to_set().contains(x) by {
        if name_set(s).contains(x) {
            let i = choose|i: int| 0 <= i < s.len() && s[i]@ == x;
            crate::ast::lemma_strings_index(s, i);
            assert(v[i] == x);
        }
        if v.to_set().contains(x) {
            assert(v.contains(x));
            let i = choose|i: int| 0 <= i < v.len() && v[i] == x;
            crate::ast::lemma_strings_index(s, i);
            assert(s[i]@ == x);
        }
    }
    assert(name_set(s) =~= v.to_set());
}

fn add_names(v: &mut Vec<String>, names: &Vec<String>)
    ensures
        name_set(final(v)@) == name_set(old(v)@) + name_set(names@),
{
    let mut i: usize = 0;
    while i < names.len()
        invariant
            i <= names@.len(),
            name_set(v@) == name_set(old(v)@) + name_set(names@.take(i as int)),
        decreases names@.len() - i,
    {
        proof {
            crate::resolve::lemma_name_set_push(names@.take(i as int), names@[i as int]);
            assert(names@.take(i + 1) =~= names@.take(i as int).push(names@[i as int]));
        }
        add_name(v, names[i].as_str());
        proof {
            assert(name_set(v@) =~= name_set(old(v)@) + name_set(names@.take(i + 1)));
        }
        i = i + 1;
    }
    proof {
        assert(names@.take(names@.len() as int) =~= names@);
    }
}

/// `before` + `name` + `after`.
fn quoted_exec(before: &str, name: &str, after: &str) -> (r: String)
    ensures
        r@ == quoted(before@, name@, after@),
{
    let mut m = String::new();
    string_push_str(&mut m, before);
    string_push_str(&mut m, name);
    string_push_str(&mut m, after);
    proof {
        assert(m@ =~= quoted(before@, name@, after@));
    }
    m
}

fn literal_receiver_exec(e: &Expression) -> (r: Option<&'static str>)
    ensures
        match literal_receiver(expr_view(*e)) {
            Some(k) => r matches Some(x) && x@ == k,
            None => r is None,
        },
{
    match &e.kind {
        ExpressionKind::Number(_) => Some("number"),
        ExpressionKind::Boolean(_) => Some("boolean"),
        ExpressionKind::Null => Some("null"),
        _ => None,
    }
}

fn html_method_exec(name: &str) -> (r: bool)
    ensures
        r == html_method(name@),
{
    str_eq(name, "css") || str_eq(name, "regex") || str_eq(name, "text") || str_eq(name, "attr") || str_eq(name, "html")
}

fn requirable_exec(inner: &Expression) -> (r: bool)
    ensures
        r == requirable(expr_view(*inner)),
{
    match &inner.kind {
        ExpressionKind::MethodCall { name, .. } => str_eq(name.as_str(), "css") || str_eq(name.as_str(), "regex"),
        ExpressionKind::FunctionCall { name, .. } => str_eq(name.as_str(), "css") || str_eq(name.as_str(), "css@")
            || str_eq(name.as_str(), "regex") || str_eq(name.as_str(), "regex@"),
        _ => false,
    }
}

fn arithmetic_exec(op: BinaryOperator) -> (r: bool)
    ensures
        r == arithmetic(op),
{
    match op {
        BinaryOperator::Add | BinaryOperator::Subtract | BinaryOperator::Multiply | BinaryOperator::Divide
        | BinaryOperator::Remainder => true,
        _ => false,
    }
}

impl Validator {
    fn report(&mut self, message: String, span: Span)
        ensures
            final(self).state() == report(old(self).state(), message@, span),
            final(self).fns() == old(self).fns(),
            final(self).wf() == old(self).wf(),
    {
        let d = Diagnostic::from_message(message, span);
        proof {
            assert(diag_views(self.diagnostics@.push(d)) =~= diag_views(self.diagnostics@).push(d@));
        }
        self.diagnostics.push(d);
    }

    fn check_method(&mut self, receiver: &Expression, name: &str, span: Span)
        ensures
            final(self).state() == check_method(old(self).state(), expr_view(*receiver), name@, span),
            final(self).fns() == old(self).fns(),
            final(self).wf() == old(self).wf(),
    {
        match literal_receiver_exec(receiver) {
            Some(kind) => {
                if html_method_exec(name) {
                    let mut m = quoted_exec("method `", name, "` cannot be called on a ");
                    string_push_str(&mut m, kind);
                    self.report(m, span);
                }
            },
            None => {},
        }
    }

    fn constrain(&mut self, e: &Expression, c: InputConstraint, span: Span)
        requires
            old(self).wf(),
        ensures
            final(self).state() == constrain(old(self).state(), expr_view(*e), c, span),
            final(self).fns() == old(self).fns(),
            final(self).wf(),
    {
        if let ExpressionKind::Variable(name) = &e.kind {
            match self.requirements.input_position(name.as_str()) {
                Some(index) => {
                    let ghost before = self.state();
                    proof {
                        assert(expr_view(*e).kind == ExprKindV::Variable(name@));
                        assert(input_index(before.reqs.inputs, name@) == Some(index as int));
                    }
                    match self.requirements.constrain_input(index, c) {
                        Ok(()) => {
                            proof {
                                assert(self.state().reqs == constrain(before, expr_view(*e), c, span).reqs);
                                assert(self.state().diags == constrain(before, expr_view(*e), c, span).diags);
                                assert(self.state().globals == constrain(before, expr_view(*e), c, span).globals);
                            }
                        },
                        Err(_) => {
                            let m = quoted_exec("input `", name.as_str(), "` has incompatible inferred constraints");
                            self.report(m, span);
                        },
                    }
                },
                None => {},
            }
        }
    }

    fn bind_fields(&mut self, scope: &mut Scope, fields: &Vec<ObjectField>)
        ensures
            (final(self).state(), scope_view(*final(scope))) == bind_fields(old(self).state(), scope_view(*old(scope)), fields_view(fields@), 0),
            final(self).fns() == old(self).fns(),
            final(self).wf() == old(self).wf(),
    {
        let ghost fv = fields_view(fields@);
        proof {
            lemma_fields_len(fields@);
        }
        let mut i: usize = 0;
        while i < fields.len()
            invariant
                fv == fields_view(fields@),
                fv.len() == fields@.len(),
                i <= fields@.len(),
                self.fns() == old(self).fns(),
                self.wf() == old(self).wf(),
                bind_fields(old(self).state(), scope_view(*old(scope)), fv, 0) == bind_fields(self.state(), scope_view(*scope), fv, i as int),
            decreases fields@.len() - i,
        {
            proof {
                lemma_fields_index(fields@, i as int);
            }
            add_name(&mut self.globals, fields[i].name.as_str());
            add_name(&mut scope.bindings, fields[i].name.as_str());
            i = i + 1;
        }
    }

    fn expr(&mut self, e: &Expression, scope: &mut Scope, ctx: ValidationContext, value: bool)
        requires
            old(self).wf(),
        ensures
            (final(self).state(), scope_view(*final(scope))) == v_expr(old(self).state(), expr_view(*e), scope_view(*old(scope)), ctx, value, old(self).fns()),
            final(self).fns() == old(self).fns(),
            final(self).wf(),
        decreases e,
    {
        match &e.kind {
            ExpressionKind::InterpolatedString(parts) => self.parts(parts, scope, ctx),
            ExpressionKind::Array(values) => self.exprs(values, scope, ctx),
            ExpressionKind::Object(fields) => self.fields(fields, scope, ctx),
            ExpressionKind::Variable(name) => {
                if contains_name(&scope.locals, name.as_str()) {
                } else if str_eq(name.as_str(), "it") {
                    if !scope.it_available {
                        self.report("`it` is only available inside functional blocks".to_owned(), e.span);
                    }
                } else if !(contains_name(&scope.bindings, name.as_str()) || contains_name(&self.globals, name.as_str())) {
                    let ghost before = self.state();
                    self.requirements.require_input(name.as_str(), e.span);
                    proof {
                        assert(self.state() == VState { reqs: spec_require_input(before.reqs, name@, e.span).0, ..before });
                    }
                }
            },
            ExpressionKind::Identifier(name) => {
                if !contains_name(&scope.locals, name.as_str()) {
                    let m = quoted_exec("unresolved local identifier `", name.as_str(), "`");
                    self.report(m, e.span);
                }
            },
            ExpressionKind::FunctionCall { name, arguments } => {
                self.exprs(arguments, scope, ctx);
                if ctx.in_test && str_eq(name.as_str(), "assertEq") {
                } else if builtin_function(name.as_str()).is_none() && !contains_name(&self.script_functions, name.as_str()) {
                    let ghost before = self.state();
                    self.requirements.require_function(FunctionIdentity::Unqualified(name.clone()), arguments.len(), e.span);
                    proof {
                        crate::ast::lemma_exprs_len(arguments@);
                        assert(self.state() == VState {
                            reqs: spec_require_function(before.reqs, IdentityV::Unqualified(name@), arguments@.len() as usize, e.span),
                            ..before
                        });
                    }
                }
            },
            ExpressionKind::QualifiedFunctionCall { module, name, arguments } => {
                let ghost before = self.state();
                self.requirements.require_function(
                    FunctionIdentity::Qualified { module: module.clone(), name: name.clone() },
                    arguments.len(),
                    e.span,
                );
                proof {
                    crate::ast::lemma_exprs_len(arguments@);
                    assert(self.state() == VState {
                        reqs: spec_require_function(before.reqs, IdentityV::Qualified(module@, name@), arguments@.len() as usize, e.span),
                        ..before
                    });
                }
                self.exprs(arguments, scope, ctx);
            },
            ExpressionKind::CoreCall { name, arguments } => {
                self.exprs(arguments, scope, ctx);
                proof {
                    crate::ast::lemma_exprs_len(arguments@);
                }
                if str_eq(name.as_str(), "extend") && arguments.len() == 1 {
                    proof {
                        crate::ast::lemma_exprs_index(arguments@, 0);
                    }
                    if let ExpressionKind::Object(fields) = &arguments[0].kind {
                        self.bind_fields(scope, fields);
                    }
                }
            },
            ExpressionKind::MethodCall { receiver, name, arguments, .. } => {
                self.expr(receiver, scope, ctx, true);
                self.exprs(arguments, scope, ctx);
                self.check_method(receiver, name.as_str(), e.span);
                if str_eq(name.as_str(), "css") {
                    self.constrain(receiver, InputConstraint::HtmlLike, e.span);
                }
            },
            ExpressionKind::Lambda { parameters, body } => {
                let mut inner = copy_scope(scope, scope.it_available);
                add_names(&mut inner.locals, parameters);
                proof {
                    lemma_name_set_strings(parameters@);
                }
                self.expr(body, &mut inner, ctx, true);
            },
            ExpressionKind::FunctionalBlock { receiver, body, .. } => {
                self.expr(receiver, scope, ctx, true);
                let mut inner = copy_scope(scope, true);
                self.stmts(body, &mut inner, ctx, false);
            },
            ExpressionKind::Required(inner) => {
                self.expr(inner, scope, ctx, true);
                if !requirable_exec(inner) {
                    self.report("`!` is only valid after `css`, `css@`, or `regex`".to_owned(), e.span);
                }
            },
            ExpressionKind::Unary { operand, .. } => self.expr(operand, scope, ctx, true),
            ExpressionKind::Binary { left, operator, right } => {
                self.expr(left, scope, ctx, true);
                self.expr(right, scope, ctx, true);
                if arithmetic_exec(*operator) {
                    self.constrain(left, InputConstraint::NumberLike, left.span);
                    self.constrain(right, InputConstraint::NumberLike, right.span);
                }
            },
            ExpressionKind::IfElse { condition, then_branch, else_branch } => {
                self.expr(condition, scope, ctx, true);
                self.expr(then_branch, scope, ctx, true);
                self.expr(else_branch, scope, ctx, true);
            },
            ExpressionKind::BlockIf { condition, then_branch, else_branch } => {
                self.expr(condition, scope, ctx, true);
                if value && else_branch.is_none() {
                    self.report("block `if` used as a value requires an `else` branch".to_owned(), e.span);
                }
                self.stmts(then_branch, scope, ctx, value);
                match else_branch {
                    Some(b) => self.stmts(b, scope, ctx, value),
                    None => {},
                }
            },
            ExpressionKind::Switch { target, arms } => {
                self.expr(target, scope, ctx, true);
                self.arms(arms, scope, ctx);
            },
            ExpressionKind::Subscript { receiver, index } => {
                self.expr(receiver, scope, ctx, true);
                self.expr(index, scope, ctx, true);
            },
            _ => {},
        }
    }

    fn exprs(&mut self, es: &Vec<Expression>, scope: &mut Scope, ctx: ValidationContext)
        requires
            old(self).wf(),
        ensures
            (final(self).state(), scope_view(*final(scope))) == v_exprs(old(self).state(), exprs_view(es@), scope_view(*old(scope)), ctx, old(self).fns(), 0),
            final(self).fns() == old(self).fns(),
            final(self).wf(),
        decreases es,
    {
        let ghost ev = exprs_view(es@);
        let ghost fns = self.fns();
        proof {
            lemma_exprs_len(es@);
        }
        let mut i: usize = 0;
        while i < es.len()
            invariant
                ev == exprs_view(es@),
                ev.len() == es@.len(),
                i <= es@.len(),
                self.fns() == fns,
                fns == old(self).fns(),
                self.wf(),
                v_exprs(old(self).state(), ev, scope_view(*old(scope)), ctx, fns, 0) == v_exprs(self.state(), ev, scope_view(*scope), ctx, fns, i as int),
            decreases es@.len() - i,
        {
            proof {
                lemma_exprs_index(es@, i as int);
                assert(decreases_to!(es => es@));
                assert(decreases_to!(es@ => es@[i as int]));
            }
            self.expr(&es[i], scope, ctx, true);
            i = i + 1;
        }
    }

    fn parts(&mut self, parts: &Vec<InterpolatedStringPart>, scope: &mut Scope, ctx: ValidationContext)
        requires
            old(self).wf(),
        ensures
            (final(self).state(), scope_view(*final(scope))) == v_parts(old(self).state(), iparts_view(parts@), scope_view(*old(scope)), ctx, old(self).fns(), 0),
            final(self).fns() == old(self).fns(),
            final(self).wf(),
        decreases parts,
    {
        let ghost pv = iparts_view(parts@);
        let ghost fns = self.fns();
        proof {
            lemma_iparts_len(parts@);
        }
        let mut i: usize = 0;
        while i < parts.len()
            invariant
                pv == iparts_view(parts@),
                pv.len() == parts@.len(),
                i <= parts@.len(),
                self.fns() == fns,
                fns == old(self).fns(),
                self.wf(),
                v_parts(old(self).state(), pv, scope_view(*old(scope)), ctx, fns, 0) == v_parts(self.state(), pv, scope_view(*scope), ctx, fns, i as int),
            decreases parts@.len() - i,
        {
            proof {
                lemma_iparts_index(parts@, i as int);
                assert(decreases_to!(parts => parts@));
                assert(decreases_to!(parts@ => parts@[i as int]));
            }
            match &parts[i] {
                InterpolatedStringPart::Expression(x) => self.expr(x, scope, ctx, true),
                InterpolatedStringPart::Literal(_) => {},
            }
            i = i + 1;
        }
    }

    fn fields(&mut self, fields: &Vec<ObjectField>, scope: &mut Scope, ctx: ValidationContext)
        requires
            old(self).wf(),
        ensures
            (final(self).state(), scope_view(*final(scope))) == v_fields(old(self).state(), fields_view(fields@), scope_view(*old(scope)), ctx, old(self).fns(), 0),
            final(self).fns() == old(self).fns(),
            final(self).wf(),
        decreases fields,
    {
        let ghost fv = fields_view(fields@);
        let ghost fns = self.fns();
        proof {
            lemma_fields_len(fields@);
        }
        let mut i: usize = 0;
        while i < fields.len()
            invariant
                fv == fields_view(fields@),
                fv.len() == fields@.len(),
                i <= fields@.len(),
                self.fns() == fns,
                fns == old(self).fns(),
                self.wf(),
                v_fields(old(self).state(), fv, scope_view(*old(scope)), ctx, fns, 0) == v_fields(self.state(), fv, scope_view(*scope), ctx, fns, i as int),
            decreases fields@.len() - i,
        {
            proof {
                lemma_fields_index(fields@, i as int);
                assert(decreases_to!(fields => fields@));
                assert(decreases_to!(fields@ => fields@[i as int]));
            }
            self.expr(&fields[i].value, scope, ctx, true);
            i = i + 1;
        }
    }

    fn arms(&mut self, arms: &Vec<SwitchArm>, scope: &mut Scope, ctx: ValidationContext)
        requires
            old(self).wf(),
        ensures
            (final(self).state(), scope_view(*final(scope))) == v_arms(old(self).state(), arms_view(arms@), scope_view(*old(scope)), ctx, old(self).fns(), 0),
            final(self).fns() == old(self).fns(),
            final(self).wf(),
        decreases arms,
    {
        let ghost av = arms_view(arms@);
        let ghost fns = self.fns();
        proof {
            lemma_arms_len(arms@);
        }
        let mut i: usize = 0;
        while i < arms.len()
            invariant
                av == arms_view(arms@),
                av.len() == arms@.len(),
                i <= arms@.len(),
                self.fns() == fns,
                fns == old(self).fns(),
                self.wf(),
                v_arms(old(self).state(), av, scope_view(*old(scope)), ctx, fns, 0) == v_arms(self.state(), av, scope_view(*scope), ctx, fns, i as int),
            decreases arms@.len() - i,
        {
            proof {
                lemma_arms_index(arms@, i as int);
                assert(decreases_to!(arms => arms@));
                assert(decreases_to!(arms@ => arms@[i as int]));
            }
            let arm = &arms[i];
            match &arm.pattern {
                SwitchPattern::Value(p) => {
                    self.expr(p, scope, ctx, true);
                    self.expr(&arm.value, scope, ctx, true);
                },
                SwitchPattern::Wildcard => {
                    self.expr(&arm.value, scope, ctx, true);
                },
                SwitchPattern::Binding(name) => {
                    let mut inner = copy_scope(scope, scope.it_available);
                    add_name(&mut inner.locals, name.as_str());
                    self.expr(&arm.value, &mut inner, ctx, true);
                },
            }
            i = i + 1;
        }
    }

    fn stmt(&mut self, s: &Statement, scope: &mut Scope, ctx: ValidationContext, value: bool)
        requires
            old(self).wf(),
        ensures
            (final(self).state(), scope_view(*final(scope))) == v_stmt(old(self).state(), stmt_view(*s), scope_view(*old(scope)), ctx, old(self).fns(), value),
            final(self).fns() == old(self).fns(),
            final(self).wf(),
        decreases s,
    {
        match &s.kind {
            StatementKind::Assignment { name, value: v, .. } => {
                self.expr(v, scope, ctx, true);
                add_name(&mut scope.bindings, name.as_str());
            },
            StatementKind::ComputedAssignment { name, value: v } => {
                self.expr(name, scope, ctx, true);
                self.expr(v, scope, ctx, true);
            },
            StatementKind::Return(v) => {
                if !ctx.in_function {
                    self.report("`return` is only valid inside a function".to_owned(), s.span);
                }
                self.expr(v, scope, ctx, true);
            },
            StatementKind::While { condition, body } => {
                self.expr(condition, scope, ctx, true);
                self.stmts(body, scope, ValidationContext { in_loop: true, ..ctx }, false);
            },
            StatementKind::Loop { body } => {
                self.stmts(body, scope, ValidationContext { in_loop: true, ..ctx }, false);
            },
            StatementKind::Break => {
                if !ctx.in_loop {
                    self.report("`break` is only valid inside a loop".to_owned(), s.span);
                }
            },
            StatementKind::Expression(x) => self.expr(x, scope, ctx, value),
        }
    }

    fn stmts(&mut self, stmts: &Vec<Statement>, scope: &mut Scope, ctx: ValidationContext, value_required: bool)
        requires
            old(self).wf(),
        ensures
            (final(self).state(), scope_view(*final(scope))) == v_stmts(old(self).state(), stmts_view(stmts@), scope_view(*old(scope)), ctx, old(self).fns(), value_required, 0),
            final(self).fns() == old(self).fns(),
            final(self).wf(),
        decreases stmts,
    {
        let ghost sv = stmts_view(stmts@);
        let ghost fns = self.fns();
        proof {
            lemma_stmts_len(stmts@);
        }
        let mut i: usize = 0;
        while i < stmts.len()
            invariant
                sv == stmts_view(stmts@),
                sv.len() == stmts@.len(),
                i <= stmts@.len(),
                self.fns() == fns,
                fns == old(self).fns(),
                self.wf(),
                v_stmts(old(self).state(), sv, scope_view(*old(scope)), ctx, fns, value_required, 0) == v_stmts(self.state(), sv, scope_view(*scope), ctx, fns, value_required, i as int),
            decreases stmts@.len() - i,
        {
            proof {
                lemma_stmts_index(stmts@, i as int);
                assert(decreases_to!(stmts => stmts@));
                assert(decreases_to!(stmts@ => stmts@[i as int]));
            }
            let last = value_required && i + 1 == stmts.len();
            self.stmt(&stmts[i], scope, ctx, last);
            i = i + 1;
        }
    }
}


// ---------------------------------------------------------------------------
// Whole programs
// ---------------------------------------------------------------------------

pub open spec fn plain_context() -> ValidationContext {
    ValidationContext { in_function: false, in_test: false, in_loop: false }
}

pub open spec fn function_context() -> ValidationContext {
    ValidationContext { in_function: true, in_test: false, in_loop: false }
}

pub open spec fn test_context() -> ValidationContext {
    ValidationContext { in_function: false, in_test: true, in_loop: false }
}

pub open spec fn empty_scope() -> ScopeV {
    ScopeV { bindings: Set::empty(), locals: Set::empty(), it_available: false }
}

/// The names of the script's functions.
pub open spec fn fn_names(fs: Seq<FunctionV>) -> Set<Seq<char>> {
    Set::new(|x: Seq<char>| exists|j: int| 0 <= j < fs.len() && fs[j].name == x)
}

/// The names that top-level assignments bind: the program's globals.
pub open spec fn assigned_names(stmts: Seq<StmtV>) -> Set<Seq<char>> {
    Set::new(|x: Seq<char>| exists|j: int| 0 <= j < stmts.len() && #[trigger] assigned_name(stmts[j]) == Some(x))
}

pub open spec fn assigned_name(s: StmtV) -> Option<Seq<char>> {
    match s.kind {
        StmtKindV::Assignment { name, .. } => Some(name),
        _ => None,
    }
}

/// One diagnostic for each parameter that repeats an earlier one.
pub open spec fn param_diags(params: Seq<Seq<char>>, span: Span) -> Seq<DiagnosticV>
    decreases params.len(),
{
    if params.len() == 0 {
        seq![]
    } else {
        let earlier = params.drop_last();
        let here = if earlier.contains(params.last()) {
            seq![diag(quoted("duplicate parameter `"@, params.last(), "`"@), span)]
        } else {
            seq![]
        };
        param_diags(earlier, span) + here
    }
}

/// The declaration errors of a function, given the functions before it.
pub open spec fn function_diags(f: FunctionV, earlier: Seq<FunctionV>) -> Seq<DiagnosticV> {
    let reserved = if builtin_kind(f.name) is Some {
        seq![diag(quoted("function name `"@, f.name, "` is reserved"@), f.span)]
    } else {
        seq![]
    };
    let duplicate = if fn_names(earlier).contains(f.name) {
        seq![diag(quoted("duplicate function `"@, f.name, "`"@), f.span)]
    } else {
        seq![]
    };
    reserved + duplicate + param_diags(f.parameters, f.span)
}

/// The declaration errors of all functions, in order.
pub open spec fn declaration_diags(fs: Seq<FunctionV>) -> Seq<DiagnosticV>
    decreases fs.len(),
{
    if fs.len() == 0 {
        seq![]
    } else {
        declaration_diags(fs.drop_last()) + function_diags(fs.last(), fs.drop_last())
    }
}

pub open spec fn input_names(inputs: Seq<TestInputV>) -> Set<Seq<char>> {
    Set::new(|x: Seq<char>| exists|j: int| 0 <= j < inputs.len() && inputs[j].name == x)
}

/// The names bound in a test body: the globals, the test's inputs, and
/// `it` when the test runs the script.
pub open spec fn test_bindings(t: TestBlockV, globals: Set<Seq<char>>) -> Set<Seq<char>> {
    let named = globals + input_names(t.inputs);
    if t.runs_script {
        named.insert("it"@)
    } else {
        named
    }
}

pub open spec fn resolve_test(t: TestBlockV, globals: Set<Seq<char>>) -> TestBlockV {
    TestBlockV { body: r_stmts(t.body, test_bindings(t, globals), 0).0, ..t }
}

pub open spec fn resolve_function(f: FunctionV, globals: Set<Seq<char>>) -> FunctionV {
    FunctionV { body: r_stmts(f.body, globals + f.parameters.to_set(), 0).0, ..f }
}

/// The program with core and qualified calls resolved: top-level
/// statements with no names bound, tests with `test_bindings`, functions
/// with the globals and their parameters.
pub open spec fn resolve_program(p: ProgramV) -> ProgramV {
    let globals = assigned_names(p.statements);
    ProgramV {
        functions: Seq::new(p.functions.len(), |i: int| resolve_function(p.functions[i], globals)),
        tests: Seq::new(p.tests.len(), |i: int| resolve_test(p.tests[i], globals)),
        statements: r_stmts(p.statements, Set::empty(), 0).0,
        span: p.span,
    }
}

/// Function bodies from `i` on, each in a scope of the globals and its
/// parameters, its last statement's value used.
pub open spec fn v_functions(st: VState, fs: Seq<FunctionV>, globals: Set<Seq<char>>, fns: Set<Seq<char>>, i: int) -> VState
    decreases fs.len() - i,
{
    if i < 0 || i >= fs.len() {
        st
    } else {
        let f = fs[i];
        let sc = ScopeV { bindings: globals, locals: f.parameters.to_set(), it_available: false };
        let r = v_stmts(VState { globals, ..st }, f.body, sc, function_context(), fns, true, 0);
        v_functions(r.0, fs, globals, fns, i + 1)
    }
}

/// A test's inputs from `i` on: each value checked, then its name bound.
pub open spec fn v_inputs(st: VState, inputs: Seq<TestInputV>, sc: ScopeV, fns: Set<Seq<char>>, i: int) -> (VState, ScopeV)
    decreases inputs.len() - i,
{
    if i < 0 || i >= inputs.len() {
        (st, sc)
    } else {
        let r = v_expr(st, inputs[i].value, sc, test_context(), true, fns);
        v_inputs(r.0, inputs, ScopeV { bindings: r.1.bindings.insert(inputs[i].name), ..r.1 }, fns, i + 1)
    }
}

pub open spec fn v_test(st: VState, t: TestBlockV, fns: Set<Seq<char>>) -> VState {
    let r = v_inputs(VState { globals: Set::empty(), ..st }, t.inputs, empty_scope(), fns, 0);
    let sc = if t.runs_script { ScopeV { locals: r.1.locals.insert("it"@), ..r.1 } } else { r.1 };
    v_stmts(r.0, t.body, sc, test_context(), fns, false, 0).0
}

pub open spec fn v_tests(st: VState, ts: Seq<TestBlockV>, fns: Set<Seq<char>>, i: int) -> VState
    decreases ts.len() - i,
{
    if i < 0 || i >= ts.len() {
        st
    } else {
        v_tests(v_test(st, ts[i], fns), ts, fns, i + 1)
    }
}

/// All checks of a resolved program: declarations, then function bodies,
/// then top-level statements, then tests.
pub open spec fn checked_program(p: ProgramV) -> VState {
    let fns = fn_names(p.functions);
    let start = VState {
        reqs: RequirementsV { inputs: seq![], functions: seq![] },
        diags: declaration_diags(p.functions),
        globals: Set::empty(),
    };
    let after_functions = v_functions(start, p.functions, assigned_names(p.statements), fns, 0);
    let after_statements = v_stmts(
        VState { globals: Set::empty(), ..after_functions },
        p.statements,
        empty_scope(),
        plain_context(),
        fns,
        false,
        0,
    ).0;
    v_tests(after_statements, p.tests, fns, 0)
}

/// The requirements of a resolved program when no check failed, else every
/// diagnostic in order.
pub open spec fn validation_result(p: ProgramV) -> Result<RequirementsV, Seq<DiagnosticV>> {
    let st = checked_program(p);
    if st.diags.len() == 0 {
        Ok(st.reqs)
    } else {
        Err(st.diags)
    }
}


fn push_diag(out: &mut Vec<Diagnostic>, message: String, span: Span)
    ensures
        diag_views(final(out)@) == diag_views(old(out)@).push(diag(message@, span)),
{
    let d = Diagnostic::from_message(message, span);
    proof {
        assert(diag_views(out@.push(d)) =~= diag_views(out@).push(d@));
    }
    out.push(d);
}

/// The names that top-level assignments bind.
fn assigned_names_exec(stmts: &Vec<Statement>) -> (r: Vec<String>)
    ensures
        name_set(r@) == assigned_names(stmts_view(stmts@)),
{
    let ghost sv = stmts_view(stmts@);
    proof {
        lemma_stmts_len(stmts@);
    }
    let mut out: Vec<String> = Vec::new();
    let mut i: usize = 0;
    while i < stmts.len()
        invariant
            sv == stmts_view(stmts@),
            sv.len() == stmts@.len(),
            i <= stmts@.len(),
            forall|x: Seq<char>| name_set(out@).contains(x) <==> exists|j: int| 0 <= j < i && #[trigger] assigned_name(sv[j]) == Some(x),
        decreases stmts@.len() - i,
    {
        proof {
            lemma_stmts_index(stmts@, i as int);
        }
        let ghost before = out@;
        if let StatementKind::Assignment { name, .. } = &stmts[i].kind {
            add_name(&mut out, name.as_str());
            proof {
                assert(assigned_name(sv[i as int]) == Some(name@));
            }
        } else {
            proof {
                assert(assigned_name(sv[i as int]) is None);
            }
        }
        proof {
            assert forall|x: Seq<char>| name_set(out@).contains(x) <==> exists|j: int| 0 <= j < i + 1 && #[trigger] assigned_name(sv[j]) == Some(x) by {
                if exists|j: int| 0 <= j < i + 1 && #[trigger] assigned_name(sv[j]) == Some(x) {
                    let j = choose|j: int| 0 <= j < i + 1 && #[trigger] assigned_name(sv[j]) == Some(x);
                    if j < i {
                        assert(name_set(before).contains(x));
                    }
                }
                if name_set(before).contains(x) {
                    let j = choose|j: int| 0 <= j < i && #[trigger] assigned_name(sv[j]) == Some(x);
                    assert(0 <= j < i + 1 && assigned_name(sv[j]) == Some(x));
                }
            }
        }
        i = i + 1;
    }
    proof {
        assert(name_set(out@) =~= assigned_names(sv));
    }
    out
}

/// Appends a diagnostic for each parameter that repeats an earlier one.
fn param_checks(params: &Vec<String>, span: Span, out: &mut Vec<Diagnostic>)
    ensures
        diag_views(final(out)@) == diag_views(old(out)@) + param_diags(strings_view(params@), span),
{
    let ghost pv = strings_view(params@);
    proof {
        crate::ast::lemma_strings_len(params@);
    }
    let mut seen: Vec<String> = Vec::new();
    let mut i: usize = 0;
    while i < params.len()
        invariant
            pv == strings_view(params@),
            pv.len() == params@.len(),
            i <= params@.len(),
            forall|x: Seq<char>| name_set(seen@).contains(x) <==> pv.take(i as int).contains(x),
            diag_views(out@) == diag_views(old(out)@) + param_diags(pv.take(i as int), span),
        decreases params@.len() - i,
    {
        proof {
            crate::ast::lemma_strings_index(params@, i as int);
            assert(pv.take(i + 1).drop_last() =~= pv.take(i as int));
            assert(pv.take(i + 1).last() == pv[i as int]);
        }
        let p = params[i].as_str();
        let ghost before = diag_views(out@);
        if contains_name(&seen, p) {
            let m = quoted_exec("duplicate parameter `", p, "`");
            push_diag(out, m, span);
        }
        let ghost seen_before = seen@;
        add_name(&mut seen, p);
        proof {
            let next = pv.take(i + 1);
            let prev = pv.take(i as int);
            assert forall|x: Seq<char>| name_set(seen@).contains(x) <==> next.contains(x) by {
                if next.contains(x) {
                    let j = choose|j: int| 0 <= j < next.len() && next[j] == x;
                    if j < i {
                        assert(prev[j] == x);
                    }
                }
                if prev.contains(x) {
                    let j = choose|j: int| 0 <= j < prev.len() && prev[j] == x;
                    assert(next[j] == x);
                }
                if x == pv[i as int] {
                    assert(next[i as int] == x);
                }
            }
            assert(diag_views(out@) =~= diag_views(old(out)@) + param_diags(next, span));
        }
        i = i + 1;
    }
    proof {
        assert(pv.take(pv.len() as int) =~= pv);
    }
}

/// The declaration diagnostics and the names of the script's functions.
fn declaration_checks(functions: &Vec<FunctionDefinition>) -> (r: (Vec<Diagnostic>, Vec<String>))
    ensures
        diag_views(r.0@) == declaration_diags(functions_view(functions@)),
        name_set(r.1@) == fn_names(functions_view(functions@)),
{
    let ghost fv = functions_view(functions@);
    proof {
        crate::ast::lemma_functions_len(functions@);
    }
    let mut out: Vec<Diagnostic> = Vec::new();
    let mut names: Vec<String> = Vec::new();
    let mut i: usize = 0;
    proof {
        assert(diag_views(out@) =~= declaration_diags(fv.take(0)));
        assert(name_set(names@) =~= fn_names(fv.take(0)));
    }
    while i < functions.len()
        invariant
            fv == functions_view(functions@),
            fv.len() == functions@.len(),
            i <= functions@.len(),
            diag_views(out@) == declaration_diags(fv.take(i as int)),
            name_set(names@) == fn_names(fv.take(i as int)),
        decreases functions@.len() - i,
    {
        proof {
            crate::ast::lemma_functions_index(functions@, i as int);
            assert(fv.take(i + 1).drop_last() =~= fv.take(i as int));
            assert(fv.take(i + 1).last() == fv[i as int]);
        }
        let f = &functions[i];
        let ghost start = diag_views(out@);
        if builtin_function(f.name.as_str()).is_some() {
            let m = quoted_exec("function name `", f.name.as_str(), "` is reserved");
            push_diag(&mut out, m, f.span);
        }
        if contains_name(&names, f.name.as_str()) {
            let m = quoted_exec("duplicate function `", f.name.as_str(), "`");
            push_diag(&mut out, m, f.span);
        }
        param_checks(&f.parameters, f.span, &mut out);
        add_name(&mut names, f.name.as_str());
        proof {
            let next = fv.take(i + 1);
            let prev = fv.take(i as int);
            assert(diag_views(out@) =~= declaration_diags(prev) + function_diags(fv[i as int], prev));
            assert forall|x: Seq<char>| name_set(names@).contains(x) <==> fn_names(next).contains(x) by {
                if fn_names(next).contains(x) {
                    let j = choose|j: int| 0 <= j < next.len() && next[j].name == x;
                    if j < i {
                        assert(prev[j].name == x);
                    }
                }
                if fn_names(prev).contains(x) {
                    let j = choose|j: int| 0 <= j < prev.len() && prev[j].name == x;
                    assert(next[j].name == x);
                }
                if x == fv[i as int].name {
                    assert(next[i as int].name == x);
                }
            }
            assert(name_set(names@) =~= fn_names(next));
        }
        i = i + 1;
    }
    proof {
        assert(fv.take(fv.len() as int) =~= fv);
    }
    (out, names)
}


/// The names bound in a test body: the globals, the inputs, and `it` when
/// the test runs the script.
fn test_binding_names(t: &TestBlock, globals: &Vec<String>) -> (r: Vec<String>)
    ensures
        name_set(r@) == test_bindings(test_view(*t), name_set(globals@)),
{
    let ghost iv = test_inputs_view(t.inputs@);
    proof {
        crate::ast::lemma_test_inputs_len(t.inputs@);
        assert(input_names(iv.take(0)) =~= Set::empty());
    }
    let mut b = copy_names(globals);
    let mut i: usize = 0;
    while i < t.inputs.len()
        invariant
            iv == test_inputs_view(t.inputs@),
            iv.len() == t.inputs@.len(),
            i <= t.inputs@.len(),
            name_set(b@) == name_set(globals@) + input_names(iv.take(i as int)),
        decreases t.inputs@.len() - i,
    {
        proof {
            crate::ast::lemma_test_inputs_index(t.inputs@, i as int);
        }
        add_name(&mut b, t.inputs[i].name.as_str());
        proof {
            let next = iv.take(i + 1);
            let prev = iv.take(i as int);
            assert forall|x: Seq<char>| input_names(next).contains(x) <==> (input_names(prev).contains(x) || x == iv[i as int].name) by {
                if input_names(next).contains(x) {
                    let j = choose|j: int| 0 <= j < next.len() && next[j].name == x;
                    if j < i {
                        assert(prev[j].name == x);
                    }
                }
                if input_names(prev).contains(x) {
                    let j = choose|j: int| 0 <= j < prev.len() && prev[j].name == x;
                    assert(next[j].name == x);
                }
                if x == iv[i as int].name {
                    assert(next[i as int].name == x);
                }
            }
            assert(name_set(b@) =~= name_set(globals@) + input_names(next));
        }
        i = i + 1;
    }
    proof {
        assert(iv.take(iv.len() as int) =~= iv);
    }
    if t.runs_script {
        add_name(&mut b, "it");
    }
    b
}

/// Each test with its body resolved.
fn resolve_tests(tests: Vec<TestBlock>, globals: &Vec<String>) -> (r: Vec<TestBlock>)
    ensures
        tests_view(r@) == Seq::new(tests_view(tests@).len(), |k: int| resolve_test(tests_view(tests@)[k], name_set(globals@))),
{
    let ghost orig = tests@;
    let ghost tv = tests_view(orig);
    proof {
        crate::ast::lemma_tests_len(orig);
    }
    let mut rest = tests;
    let mut out: Vec<TestBlock> = Vec::new();
    let n = rest.len();
    let mut i: usize = 0;
    proof {
        assert(rest@ =~= orig.skip(0));
        assert(tests_view(out@) =~= Seq::new(0, |k: int| resolve_test(tv[k], name_set(globals@))));
    }
    while i < n
        invariant
            tv == tests_view(orig),
            tv.len() == orig.len(),
            n == orig.len(),
            i <= n,
            rest@ == orig.skip(i as int),
            tests_view(out@) == Seq::new(i as nat, |k: int| resolve_test(tv[k], name_set(globals@))),
        decreases n - i,
    {
        proof {
            crate::ast::lemma_tests_index(orig, i as int);
        }
        let t = rest.remove(0);
        proof {
            assert(t == orig[i as int]);
            assert(rest@ =~= orig.skip(i + 1));
        }
        let mut b = test_binding_names(&t, globals);
        let body = resolve_stmts(&t.body, &mut b);
        let resolved = TestBlock { inputs: t.inputs, body, runs_script: t.runs_script, span: t.span };
        proof {
            crate::ast::lemma_tests_push(out@, resolved);
        }
        out.push(resolved);
        proof {
            assert(tests_view(out@) =~= Seq::new((i + 1) as nat, |k: int| resolve_test(tv[k], name_set(globals@))));
        }
        i = i + 1;
    }
    out
}

/// Each function with its body resolved.
fn resolve_functions(functions: Vec<FunctionDefinition>, globals: &Vec<String>) -> (r: Vec<FunctionDefinition>)
    ensures
        functions_view(r@) == Seq::new(
            functions_view(functions@).len(),
            |k: int| resolve_function(functions_view(functions@)[k], name_set(globals@)),
        ),
{
    let ghost orig = functions@;
    let ghost fv = functions_view(orig);
    proof {
        crate::ast::lemma_functions_len(orig);
    }
    let mut rest = functions;
    let mut out: Vec<FunctionDefinition> = Vec::new();
    let n = rest.len();
    let mut i: usize = 0;
    proof {
        assert(rest@ =~= orig.skip(0));
        assert(functions_view(out@) =~= Seq::new(0, |k: int| resolve_function(fv[k], name_set(globals@))));
    }
    while i < n
        invariant
            fv == functions_view(orig),
            fv.len() == orig.len(),
            n == orig.len(),
            i <= n,
            rest@ == orig.skip(i as int),
            functions_view(out@) == Seq::new(i as nat, |k: int| resolve_function(fv[k], name_set(globals@))),
        decreases n - i,
    {
        proof {
            crate::ast::lemma_functions_index(orig, i as int);
        }
        let f = rest.remove(0);
        proof {
            assert(f == orig[i as int]);
            assert(rest@ =~= orig.skip(i + 1));
        }
        let mut b = copy_names(globals);
        add_names(&mut b, &f.parameters);
        proof {
            lemma_name_set_strings(f.parameters@);
        }
        let body = resolve_stmts(&f.body, &mut b);
        let resolved = FunctionDefinition { name: f.name, parameters: f.parameters, body, span: f.span };
        proof {
            crate::ast::lemma_functions_push(out@, resolved);
        }
        out.push(resolved);
        proof {
            assert(functions_view(out@) =~= Seq::new((i + 1) as nat, |k: int| resolve_function(fv[k], name_set(globals@))));
        }
        i = i + 1;
    }
    out
}

/// Rewrites the program's core and qualified calls (see `resolve_program`).
fn resolve_program_exec(program: &mut Program)
    ensures
        program_view(*final(program)) == resolve_program(program_view(*old(program))),
{
    let ghost before = program_view(*program);
    let globals = assigned_names_exec(&program.statements);
    let mut empty: Vec<String> = Vec::new();
    proof {
        assert(name_set(empty@) =~= Set::<Seq<char>>::empty());
    }
    let statements = resolve_stmts(&program.statements, &mut empty);
    let mut tests: Vec<TestBlock> = Vec::new();
    std::mem::swap(&mut tests, &mut program.tests);
    let mut functions: Vec<FunctionDefinition> = Vec::new();
    std::mem::swap(&mut functions, &mut program.functions);
    program.tests = resolve_tests(tests, &globals);
    program.functions = resolve_functions(functions, &globals);
    program.statements = statements;
    proof {
        let after = program_view(*program);
        let expected = resolve_program(before);
        assert(after.functions =~= expected.functions);
        assert(after.tests =~= expected.tests);
        assert(after.statements =~= expected.statements);
    }
}


impl Validator {
    /// Checks each function body in a fresh scope of the globals and its
    /// parameters.
    fn check_functions(&mut self, fs: &Vec<FunctionDefinition>, globals: &Vec<String>)
        requires
            old(self).wf(),
        ensures
            final(self).state() == v_functions(old(self).state(), functions_view(fs@), name_set(globals@), old(self).fns(), 0),
            final(self).fns() == old(self).fns(),
            final(self).wf(),
    {
        let ghost fv = functions_view(fs@);
        let ghost fns = self.fns();
        let ghost g = name_set(globals@);
        proof {
            crate::ast::lemma_functions_len(fs@);
        }
        let mut i: usize = 0;
        while i < fs.len()
            invariant
                fv == functions_view(fs@),
                fv.len() == fs@.len(),
                i <= fs@.len(),
                self.fns() == fns,
                fns == old(self).fns(),
                self.wf(),
                g == name_set(globals@),
                v_functions(old(self).state(), fv, g, fns, 0) == v_functions(self.state(), fv, g, fns, i as int),
            decreases fs@.len() - i,
        {
            proof {
                crate::ast::lemma_functions_index(fs@, i as int);
                lemma_name_set_strings(fs@[i as int].parameters@);
            }
            let f = &fs[i];
            self.globals = copy_names(globals);
            let mut scope = Scope { bindings: copy_names(globals), locals: copy_names(&f.parameters), it_available: false };
            self.stmts(&f.body, &mut scope, ValidationContext { in_function: true, in_test: false, in_loop: false }, true);
            i = i + 1;
        }
    }

    /// Checks a test's inputs in order, binding each name after its value.
    fn check_inputs(&mut self, inputs: &Vec<TestInput>, scope: &mut Scope)
        requires
            old(self).wf(),
        ensures
            (final(self).state(), scope_view(*final(scope))) == v_inputs(old(self).state(), test_inputs_view(inputs@), scope_view(*old(scope)), old(self).fns(), 0),
            final(self).fns() == old(self).fns(),
            final(self).wf(),
    {
        let ghost iv = test_inputs_view(inputs@);
        let ghost fns = self.fns();
        proof {
            crate::ast::lemma_test_inputs_len(inputs@);
        }
        let mut i: usize = 0;
        while i < inputs.len()
            invariant
                iv == test_inputs_view(inputs@),
                iv.len() == inputs@.len(),
                i <= inputs@.len(),
                self.fns() == fns,
                fns == old(self).fns(),
                self.wf(),
                v_inputs(old(self).state(), iv, scope_view(*old(scope)), fns, 0) == v_inputs(self.state(), iv, scope_view(*scope), fns, i as int),
            decreases inputs@.len() - i,
        {
            proof {
                crate::ast::lemma_test_inputs_index(inputs@, i as int);
            }
            self.expr(&inputs[i].value, scope, ValidationContext { in_function: false, in_test: true, in_loop: false }, true);
            add_name(&mut scope.bindings, inputs[i].name.as_str());
            i = i + 1;
        }
    }

    /// Checks each test in a fresh scope.
    fn check_tests(&mut self, tests: &Vec<TestBlock>)
        requires
            old(self).wf(),
        ensures
            final(self).state() == v_tests(old(self).state(), tests_view(tests@), old(self).fns(), 0),
            final(self).fns() == old(self).fns(),
            final(self).wf(),
    {
        let ghost tv = tests_view(tests@);
        let ghost fns = self.fns();
        proof {
            crate::ast::lemma_tests_len(tests@);
        }
        let mut i: usize = 0;
        while i < tests.len()
            invariant
                tv == tests_view(tests@),
                tv.len() == tests@.len(),
                i <= tests@.len(),
                self.fns() == fns,
                fns == old(self).fns(),
                self.wf(),
                v_tests(old(self).state(), tv, fns, 0) == v_tests(self.state(), tv, fns, i as int),
            decreases tests@.len() - i,
        {
            proof {
                crate::ast::lemma_tests_index(tests@, i as int);
            }
            let t = &tests[i];
            self.globals = Vec::new();
            let mut scope = Scope { bindings: Vec::new(), locals: Vec::new(), it_available: false };
            proof {
                assert(name_set(self.globals@) =~= Set::<Seq<char>>::empty());
                assert(scope_view(scope) == empty_scope()) by {
                    assert(name_set(scope.bindings@) =~= Set::<Seq<char>>::empty());
                    assert(name_set(scope.locals@) =~= Set::<Seq<char>>::empty());
                }
            }
            self.check_inputs(&t.inputs, &mut scope);
            if t.runs_script {
                add_name(&mut scope.locals, "it");
            }
            self.stmts(&t.body, &mut scope, ValidationContext { in_function: false, in_test: true, in_loop: false }, false);
            i = i + 1;
        }
    }
}

/// Resolves the program's calls in place and checks it: the requirements
/// when every check passes, else all diagnostics in order.
pub fn validate(program: &mut Program) -> (r: Result<Requirements, CompileError>)
    ensures
        program_view(*final(program)) == resolve_program(program_view(*old(program))),
        match validation_result(program_view(*final(program))) {
            Ok(reqs) => r matches Ok(q) && q@ == reqs && requirements_wf(q@),
            Err(ds) => r matches Err(e) && e@ == ds,
        },
{
    resolve_program_exec(program);
    let ghost p = program_view(*program);
    let (declared, names) = declaration_checks(&program.functions);
    let globals = assigned_names_exec(&program.statements);
    let mut v = Validator { requirements: Requirements::new(), diagnostics: declared, script_functions: names, globals: Vec::new() };
    proof {
        assert(v.state().reqs.inputs =~= seq![]);
        assert(v.state().reqs.functions =~= seq![]);
        assert(name_set(v.globals@) =~= Set::<Seq<char>>::empty());
    }
    v.check_functions(&program.functions, &globals);
    v.globals = Vec::new();
    let mut scope = Scope { bindings: Vec::new(), locals: Vec::new(), it_available: false };
    proof {
        assert(name_set(v.globals@) =~= Set::<Seq<char>>::empty());
        assert(scope_view(scope) == empty_scope()) by {
            assert(name_set(scope.bindings@) =~= Set::<Seq<char>>::empty());
            assert(name_set(scope.locals@) =~= Set::<Seq<char>>::empty());
        }
    }
    v.stmts(&program.statements, &mut scope, ValidationContext { in_function: false, in_test: false, in_loop: false }, false);
    v.check_tests(&program.tests);
    proof {
        assert(v.state() == checked_program(p));
    }
    if v.diagnostics.len() == 0 {
        Ok(v.requirements)
    } else {
        Err(CompileError::from_diagnostics(v.diagnostics))
    }
}


// ---------------------------------------------------------------------------
// Law: calls of script functions and builtins are never host requirements
// ---------------------------------------------------------------------------

/// No unqualified function requirement names a script function (in `fns`)
/// or a builtin.
pub open spec fn host_only(r: RequirementsV, fns: Set<Seq<char>>) -> bool {
    forall|i: int| 0 <= i < r.functions.len() ==> external_identity((#[trigger] r.functions[i]).identity, fns)
}

/// A qualified identity, or an unqualified one naming neither a script
/// function nor a builtin.
pub open spec fn external_identity(identity: IdentityV, fns: Set<Seq<char>>) -> bool {
    match identity {
        IdentityV::Unqualified(n) => !fns.contains(n) && builtin_kind(n) is None,
        IdentityV::Qualified(_, _) => true,
    }
}

proof fn lemma_require_function_host(r: RequirementsV, identity: IdentityV, arity: usize, span: Span, fns: Set<Seq<char>>)
    requires
        host_only(r, fns),
        external_identity(identity, fns),
    ensures
        host_only(spec_require_function(r, identity, arity, span), fns),
{
    let r1 = spec_require_function(r, identity, arity, span);
    match crate::requirements::function_index(r.functions, identity) {
        Some(i) => {
            assert forall|k: int| 0 <= k < r1.functions.len() implies external_identity((#[trigger] r1.functions[k]).identity, fns) by {
                if k != i {
                    assert(r1.functions[k] == r.functions[k]);
                }
            }
        },
        None => {
            assert forall|k: int| 0 <= k < r1.functions.len() implies external_identity((#[trigger] r1.functions[k]).identity, fns) by {
                if k < r.functions.len() {
                    assert(r1.functions[k] == r.functions[k]);
                }
            }
        },
    }
}

proof fn lemma_bind_fields_reqs(st: VState, sc: ScopeV, fields: Seq<FieldV>, i: int)
    ensures
        bind_fields(st, sc, fields, i).0.reqs == st.reqs,
    decreases fields.len() - i,
{
    if 0 <= i < fields.len() {
        lemma_bind_fields_reqs(
            VState { globals: st.globals.insert(fields[i].name), ..st },
            ScopeV { bindings: sc.bindings.insert(fields[i].name), ..sc },
            fields,
            i + 1,
        );
    }
}

proof fn lemma_v_expr_host(st: VState, e: ExprV, sc: ScopeV, ctx: ValidationContext, value: bool, fns: Set<Seq<char>>)
    requires
        host_only(st.reqs, fns),
    ensures
        host_only(v_expr(st, e, sc, ctx, value, fns).0.reqs, fns),
    decreases e, 0int,
{
    match e.kind {
        ExprKindV::InterpolatedString(parts) => lemma_v_parts_host(st, parts, sc, ctx, fns, 0),
        ExprKindV::Array(values) => lemma_v_exprs_host(st, values, sc, ctx, fns, 0),
        ExprKindV::Object(fields) => lemma_v_fields_host(st, fields, sc, ctx, fns, 0),
        ExprKindV::FunctionCall { name, arguments } => {
            lemma_v_exprs_host(st, arguments, sc, ctx, fns, 0);
            let r = v_exprs(st, arguments, sc, ctx, fns, 0);
            if !(ctx.in_test && name == "assertEq"@) && builtin_kind(name) is None && !fns.contains(name) {
                lemma_require_function_host(r.0.reqs, IdentityV::Unqualified(name), arguments.len() as usize, e.span, fns);
            }
        },
        ExprKindV::QualifiedFunctionCall { module, name, arguments } => {
            lemma_require_function_host(st.reqs, IdentityV::Qualified(module, name), arguments.len() as usize, e.span, fns);
            let st1 = VState {
                reqs: spec_require_function(st.reqs, IdentityV::Qualified(module, name), arguments.len() as usize, e.span),
                ..st
            };
            lemma_v_exprs_host(st1, arguments, sc, ctx, fns, 0);
        },
        ExprKindV::CoreCall { name, arguments } => {
            lemma_v_exprs_host(st, arguments, sc, ctx, fns, 0);
            let r = v_exprs(st, arguments, sc, ctx, fns, 0);
            if name == "extend"@ && arguments.len() == 1 && arguments[0].kind is Object {
                lemma_bind_fields_reqs(r.0, r.1, arguments[0].kind->Object_0, 0);
            }
        },
        ExprKindV::MethodCall { receiver, name, arguments, .. } => {
            lemma_v_expr_host(st, *receiver, sc, ctx, true, fns);
            let r1 = v_expr(st, *receiver, sc, ctx, true, fns);
            lemma_v_exprs_host(r1.0, arguments, r1.1, ctx, fns, 0);
        },
        ExprKindV::Lambda { parameters, body } => {
            let inner = ScopeV { locals: sc.locals + parameters.to_set(), ..sc };
            lemma_v_expr_host(st, *body, inner, ctx, true, fns);
        },
        ExprKindV::FunctionalBlock { receiver, body, .. } => {
            lemma_v_expr_host(st, *receiver, sc, ctx, true, fns);
            let r = v_expr(st, *receiver, sc, ctx, true, fns);
            lemma_v_stmts_host(r.0, body, child(r.1, true), ctx, fns, false, 0);
        },
        ExprKindV::Required(inner) => lemma_v_expr_host(st, *inner, sc, ctx, true, fns),
        ExprKindV::Unary { operand, .. } => lemma_v_expr_host(st, *operand, sc, ctx, true, fns),
        ExprKindV::Binary { left, operator, right } => {
            lemma_v_expr_host(st, *left, sc, ctx, true, fns);
            let r1 = v_expr(st, *left, sc, ctx, true, fns);
            lemma_v_expr_host(r1.0, *right, r1.1, ctx, true, fns);
        },
        ExprKindV::IfElse { condition, then_branch, else_branch } => {
            lemma_v_expr_host(st, *condition, sc, ctx, true, fns);
            let r1 = v_expr(st, *condition, sc, ctx, true, fns);
            lemma_v_expr_host(r1.0, *then_branch, r1.1, ctx, true, fns);
            let r2 = v_expr(r1.0, *then_branch, r1.1, ctx, true, fns);
            lemma_v_expr_host(r2.0, *else_branch, r2.1, ctx, true, fns);
        },
        ExprKindV::BlockIf { condition, then_branch, else_branch } => {
            lemma_v_expr_host(st, *condition, sc, ctx, true, fns);
            let r1 = v_expr(st, *condition, sc, ctx, true, fns);
            let st2 = if value && else_branch is None {
                report(r1.0, "block `if` used as a value requires an `else` branch"@, e.span)
            } else {
                r1.0
            };
            lemma_v_stmts_host(st2, then_branch, r1.1, ctx, fns, value, 0);
            let r3 = v_stmts(st2, then_branch, r1.1, ctx, fns, value, 0);
            match else_branch {
                Some(b) => lemma_v_stmts_host(r3.0, b, r3.1, ctx, fns, value, 0),
                None => {},
            }
        },
        ExprKindV::Switch { target, arms } => {
            lemma_v_expr_host(st, *target, sc, ctx, true, fns);
            let r1 = v_expr(st, *target, sc, ctx, true, fns);
            lemma_v_arms_host(r1.0, arms, r1.1, ctx, fns, 0);
        },
        ExprKindV::Subscript { receiver, index } => {
            lemma_v_expr_host(st, *receiver, sc, ctx, true, fns);
            let r1 = v_expr(st, *receiver, sc, ctx, true, fns);
            lemma_v_expr_host(r1.0, *index, r1.1, ctx, true, fns);
        },
        _ => {},
    }
}

proof fn lemma_v_exprs_host(st: VState, es: Seq<ExprV>, sc: ScopeV, ctx: ValidationContext, fns: Set<Seq<char>>, i: int)
    requires
        host_only(st.reqs, fns),
    ensures
        host_only(v_exprs(st, es, sc, ctx, fns, i).0.reqs, fns),
    decreases es, es.len() - i,
{
    if 0 <= i < es.len() {
        lemma_v_expr_host(st, es[i], sc, ctx, true, fns);
        let r = v_expr(st, es[i], sc, ctx, true, fns);
        lemma_v_exprs_host(r.0, es, r.1, ctx, fns, i + 1);
    }
}

proof fn lemma_v_parts_host(st: VState, parts: Seq<IPartV>, sc: ScopeV, ctx: ValidationContext, fns: Set<Seq<char>>, i: int)
    requires
        host_only(st.reqs, fns),
    ensures
        host_only(v_parts(st, parts, sc, ctx, fns, i).0.reqs, fns),
    decreases parts, parts.len() - i,
{
    if 0 <= i < parts.len() {
        match parts[i] {
            IPartV::Expression(x) => {
                lemma_v_expr_host(st, x, sc, ctx, true, fns);
                let r = v_expr(st, x, sc, ctx, true, fns);
                lemma_v_parts_host(r.0, parts, r.1, ctx, fns, i + 1);
            },
            IPartV::Literal(_) => lemma_v_parts_host(st, parts, sc, ctx, fns, i + 1),
        }
    }
}

proof fn lemma_v_fields_host(st: VState, fields: Seq<FieldV>, sc: ScopeV, ctx: ValidationContext, fns: Set<Seq<char>>, i: int)
    requires
        host_only(st.reqs, fns),
    ensures
        host_only(v_fields(st, fields, sc, ctx, fns, i).0.reqs, fns),
    decreases fields, fields.len() - i,
{
    if 0 <= i < fields.len() {
        lemma_v_expr_host(st, fields[i].value, sc, ctx, true, fns);
        let r = v_expr(st, fields[i].value, sc, ctx, true, fns);
        lemma_v_fields_host(r.0, fields, r.1, ctx, fns, i + 1);
    }
}

proof fn lemma_v_arms_host(st: VState, arms: Seq<ArmV>, sc: ScopeV, ctx: ValidationContext, fns: Set<Seq<char>>, i: int)
    requires
        host_only(st.reqs, fns),
    ensures
        host_only(v_arms(st, arms, sc, ctx, fns, i).0.reqs, fns),
    decreases arms, arms.len() - i,
{
    if 0 <= i < arms.len() {
        let arm = arms[i];
        match arm.pattern {
            PatternV::Value(p) => {
                lemma_v_expr_host(st, p, sc, ctx, true, fns);
                let r1 = v_expr(st, p, sc, ctx, true, fns);
                lemma_v_expr_host(r1.0, arm.value, r1.1, ctx, true, fns);
                let r2 = v_expr(r1.0, arm.value, r1.1, ctx, true, fns);
                lemma_v_arms_host(r2.0, arms, r2.1, ctx, fns, i + 1);
            },
            PatternV::Wildcard => {
                lemma_v_expr_host(st, arm.value, sc, ctx, true, fns);
                let r = v_expr(st, arm.value, sc, ctx, true, fns);
                lemma_v_arms_host(r.0, arms, r.1, ctx, fns, i + 1);
            },
            PatternV::Binding(name) => {
                let inner = ScopeV { locals: sc.locals.insert(name), ..sc };
                lemma_v_expr_host(st, arm.value, inner, ctx, true, fns);
                let st2 = v_expr(st, arm.value, inner, ctx, true, fns).0;
                lemma_v_arms_host(st2, arms, sc, ctx, fns, i + 1);
            },
        }
    }
}

proof fn lemma_v_stmt_host(st: VState, s: StmtV, sc: ScopeV, ctx: ValidationContext, fns: Set<Seq<char>>, value: bool)
    requires
        host_only(st.reqs, fns),
    ensures
        host_only(v_stmt(st, s, sc, ctx, fns, value).0.reqs, fns),
    decreases s, 0int,
{
    match s.kind {
        StmtKindV::Assignment { value: v, .. } => lemma_v_expr_host(st, v, sc, ctx, true, fns),
        StmtKindV::ComputedAssignment { name, value: v } => {
            lemma_v_expr_host(st, name, sc, ctx, true, fns);
            let r1 = v_expr(st, name, sc, ctx, true, fns);
            lemma_v_expr_host(r1.0, v, r1.1, ctx, true, fns);
        },
        StmtKindV::Return(v) => {
            let st1 = if !ctx.in_function { report(st, "`return` is only valid inside a function"@, s.span) } else { st };
            lemma_v_expr_host(st1, v, sc, ctx, true, fns);
        },
        StmtKindV::While { condition, body } => {
            lemma_v_expr_host(st, condition, sc, ctx, true, fns);
            let r = v_expr(st, condition, sc, ctx, true, fns);
            lemma_v_stmts_host(r.0, body, r.1, ValidationContext { in_loop: true, ..ctx }, fns, false, 0);
        },
        StmtKindV::Loop { body } => lemma_v_stmts_host(st, body, sc, ValidationContext { in_loop: true, ..ctx }, fns, false, 0),
        StmtKindV::Break => {},
        StmtKindV::Expression(x) => lemma_v_expr_host(st, x, sc, ctx, value, fns),
    }
}

proof fn lemma_v_stmts_host(
    st: VState,
    stmts: Seq<StmtV>,
    sc: ScopeV,
    ctx: ValidationContext,
    fns: Set<Seq<char>>,
    value_required: bool,
    i: int,
)
    requires
        host_only(st.reqs, fns),
    ensures
        host_only(v_stmts(st, stmts, sc, ctx, fns, value_required, i).0.reqs, fns),
    decreases stmts, stmts.len() - i,
{
    if 0 <= i < stmts.len() {
        let last = value_required && i + 1 == stmts.len();
        lemma_v_stmt_host(st, stmts[i], sc, ctx, fns, last);
        let r = v_stmt(st, stmts[i], sc, ctx, fns, last);
        lemma_v_stmts_host(r.0, stmts, r.1, ctx, fns, value_required, i + 1);
    }
}

proof fn lemma_v_functions_host(st: VState, fs: Seq<FunctionV>, globals: Set<Seq<char>>, fns: Set<Seq<char>>, i: int)
    requires
        host_only(st.reqs, fns),
    ensures
        host_only(v_functions(st, fs, globals, fns, i).reqs, fns),
    decreases fs.len() - i,
{
    if 0 <= i < fs.len() {
        let f = fs[i];
        let sc = ScopeV { bindings: globals, locals: f.parameters.to_set(), it_available: false };
        lemma_v_stmts_host(VState { globals, ..st }, f.body, sc, function_context(), fns, true, 0);
        let r = v_stmts(VState { globals, ..st }, f.body, sc, function_context(), fns, true, 0);
        lemma_v_functions_host(r.0, fs, globals, fns, i + 1);
    }
}

proof fn lemma_v_inputs_host(st: VState, inputs: Seq<TestInputV>, sc: ScopeV, fns: Set<Seq<char>>, i: int)
    requires
        host_only(st.reqs, fns),
    ensures
        host_only(v_inputs(st, inputs, sc, fns, i).0.reqs, fns),
    decreases inputs.len() - i,
{
    if 0 <= i < inputs.len() {
        lemma_v_expr_host(st, inputs[i].value, sc, test_context(), true, fns);
        let r = v_expr(st, inputs[i].value, sc, test_context(), true, fns);
        lemma_v_inputs_host(r.0, inputs, ScopeV { bindings: r.1.bindings.insert(inputs[i].name), ..r.1 }, fns, i + 1);
    }
}

proof fn lemma_v_tests_host(st: VState, ts: Seq<TestBlockV>, fns: Set<Seq<char>>, i: int)
    requires
        host_only(st.reqs, fns),
    ensures
        host_only(v_tests(st, ts, fns, i).reqs, fns),
    decreases ts.len() - i,
{
    if 0 <= i < ts.len() {
        let t = ts[i];
        lemma_v_inputs_host(VState { globals: Set::empty(), ..st }, t.inputs, empty_scope(), fns, 0);
        let r = v_inputs(VState { globals: Set::empty(), ..st }, t.inputs, empty_scope(), fns, 0);
        let sc = if t.runs_script { ScopeV { locals: r.1.locals.insert("it"@), ..r.1 } } else { r.1 };
        lemma_v_stmts_host(r.0, t.body, sc, test_context(), fns, false, 0);
        lemma_v_tests_host(v_test(st, t, fns), ts, fns, i + 1);
    }
}

/// A checked program never requires from its host a function that the
/// script defines or a builtin: only calls of other names, and qualified
/// calls, become host requirements.
pub proof fn law_script_functions_are_not_required(p: ProgramV)
    ensures
        host_only(checked_program(p).reqs, fn_names(p.functions)),
{
    let fns = fn_names(p.functions);
    let start = VState {
        reqs: RequirementsV { inputs: seq![], functions: seq![] },
        diags: declaration_diags(p.functions),
        globals: Set::empty(),
    };
    lemma_v_functions_host(start, p.functions, assigned_names(p.statements), fns, 0);
    let after_functions = v_functions(start, p.functions, assigned_names(p.statements), fns, 0);
    lemma_v_stmts_host(VState { globals: Set::empty(), ..after_functions }, p.statements, empty_scope(), plain_context(), fns, false, 0);
    let after_statements = v_stmts(VState { globals: Set::empty(), ..after_functions }, p.statements, empty_scope(), plain_context(), fns, false, 0).0;
    lemma_v_tests_host(after_statements, p.tests, fns, 0);
}

/// No two input requirements share a name.
pub open spec fn distinct_input_names(inputs: Seq<InputV>) -> bool {
    forall|i: int, j: int| 0 <= i < j < inputs.len() ==> inputs[i].name != inputs[j].name
}

pub open spec fn incompatible_message(name: Seq<char>) -> Seq<char> {
    "input `"@ + name + "` has incompatible inferred constraints"@
}

/// When `x` reads the variable `name`, every input requirement of that
/// name is number-like, unless the checks reported that its constraints
/// are incompatible (at `x`).
pub open spec fn read_as_number(st: VState, x: ExprV) -> bool {
    match x.kind {
        ExprKindV::Variable(name) => forall|k: int|
            0 <= k < st.reqs.inputs.len() && #[trigger] st.reqs.inputs[k].name == name
                ==> st.reqs.inputs[k].constraint == InputConstraint::NumberLike
                    || st.diags.contains(diag(incompatible_message(name), x.span)),
        _ => true,
    }
}

/// What constraining `x` to numbers keeps: the names of the requirements,
/// the constraints that were number-like, and the diagnostics.
proof fn lemma_constrain_number(st: VState, x: ExprV, span: Span)
    ensures
        constrain(st, x, InputConstraint::NumberLike, span).reqs.inputs.len() == st.reqs.inputs.len(),
        forall|k: int| 0 <= k < st.reqs.inputs.len() ==>
            (#[trigger] constrain(st, x, InputConstraint::NumberLike, span).reqs.inputs[k]).name == st.reqs.inputs[k].name,
        forall|k: int| 0 <= k < st.reqs.inputs.len() && st.reqs.inputs[k].constraint == InputConstraint::NumberLike ==>
            (#[trigger] constrain(st, x, InputConstraint::NumberLike, span).reqs.inputs[k]).constraint == InputConstraint::NumberLike,
        forall|d: DiagnosticV| st.diags.contains(d) ==> #[trigger] constrain(st, x, InputConstraint::NumberLike, span).diags.contains(d),
        distinct_input_names(st.reqs.inputs) && span == x.span ==> read_as_number(constrain(st, x, InputConstraint::NumberLike, span), x),
{
    let r = constrain(st, x, InputConstraint::NumberLike, span);
    match x.kind {
        ExprKindV::Variable(name) => match input_index(st.reqs.inputs, name) {
            Some(i) => {
                assert(0 <= i < st.reqs.inputs.len() && st.reqs.inputs[i].name == name);
                match combine_constraint(st.reqs.inputs[i].constraint, InputConstraint::NumberLike) {
                    Ok(next) => {
                        assert(next == InputConstraint::NumberLike || st.reqs.inputs[i].constraint == InputConstraint::NumberLike);
                    },
                    Err(_) => {
                        assert forall|d: DiagnosticV| st.diags.contains(d) implies #[trigger] r.diags.contains(d) by {
                            let k = choose|k: int| 0 <= k < st.diags.len() && st.diags[k] == d;
                            assert(r.diags[k] == d);
                        }
                        if span == x.span {
                            assert(r.diags[r.diags.len() - 1] == diag(incompatible_message(name), x.span));
                            assert(r.diags.contains(diag(incompatible_message(name), x.span)));
                        }
                    },
                }
            },
            None => {},
        },
        _ => {},
    }
}

/// An input read directly as an operand of `+`, `-`, `*`, `/` or `%` is
/// required to be number-like: after the checks of such an expression,
/// every input requirement named by a variable operand (left or right) is
/// number-like, unless an incompatible constraint was reported there.
pub proof fn law_arithmetic_operands_are_number_like(
    st: VState,
    e: ExprV,
    sc: ScopeV,
    ctx: ValidationContext,
    value: bool,
    fns: Set<Seq<char>>,
)
    requires
        e.kind matches ExprKindV::Binary { operator, .. } && arithmetic(operator),
    ensures
        ({
            let out = v_expr(st, e, sc, ctx, value, fns).0;
            distinct_input_names(out.reqs.inputs) ==> (e.kind matches ExprKindV::Binary { left, right, .. }
                && read_as_number(out, *left) && read_as_number(out, *right))
        }),
{
    match e.kind {
        ExprKindV::Binary { left, operator, right } => {
            let r1 = v_expr(st, *left, sc, ctx, true, fns);
            let r2 = v_expr(r1.0, *right, r1.1, ctx, true, fns);
            let st3 = constrain(r2.0, *left, InputConstraint::NumberLike, left.span);
            let st4 = constrain(st3, *right, InputConstraint::NumberLike, right.span);
            assert(v_expr(st, e, sc, ctx, value, fns).0 == st4);
            lemma_constrain_number(r2.0, *left, left.span);
            lemma_constrain_number(st3, *right, right.span);
            if distinct_input_names(st4.reqs.inputs) {
                assert(distinct_input_names(st3.reqs.inputs)) by {
                    assert forall|i: int, j: int| 0 <= i < j < st3.reqs.inputs.len() implies st3.reqs.inputs[i].name != st3.reqs.inputs[j].name by {
                        assert(st4.reqs.inputs[i].name == st3.reqs.inputs[i].name);
                        assert(st4.reqs.inputs[j].name == st3.reqs.inputs[j].name);
                    }
                }
                assert(distinct_input_names(r2.0.reqs.inputs)) by {
                    assert forall|i: int, j: int| 0 <= i < j < r2.0.reqs.inputs.len() implies r2.0.reqs.inputs[i].name != r2.0.reqs.inputs[j].name by {
                        assert(st3.reqs.inputs[i].name == r2.0.reqs.inputs[i].name);
                        assert(st3.reqs.inputs[j].name == r2.0.reqs.inputs[j].name);
                    }
                }
                match left.kind {
                    ExprKindV::Variable(name) => {
                        assert forall|k: int| 0 <= k < st4.reqs.inputs.len() && #[trigger] st4.reqs.inputs[k].name == name implies
                            st4.reqs.inputs[k].constraint == InputConstraint::NumberLike
                                || st4.diags.contains(diag(incompatible_message(name), left.span)) by {
                            assert(st3.reqs.inputs[k].name == name);
                            if st3.reqs.inputs[k].constraint == InputConstraint::NumberLike {
                                assert(st4.reqs.inputs[k].constraint == InputConstraint::NumberLike);
                            } else {
                                assert(st3.diags.contains(diag(incompatible_message(name), left.span)));
                            }
                        }
                    },
                    _ => {},
                }
            }
        },
        _ => {},
    }
}

} // verus!
