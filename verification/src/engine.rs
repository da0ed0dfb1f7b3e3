//! What a run checks before it starts: that the program's inputs are given
//! and fit how the program uses them, and that the host provides the
//! functions it calls.

use vstd::prelude::*;
use crate::ast::Visibility;
use crate::input::field_get;
use crate::requirements::{
    FunctionIdentity, FunctionReqV, IdentityV, InputConstraint, InputV, Requirements, identity_view,
};
use crate::runtime::{ExecutionError, kind_name};
use crate::scope::Inputs;
use crate::source::Span;
use crate::text::{str_eq, string_push_str};
use crate::value::{Value, ValueV, html_like, is_html_like, kind_of};

verus! {

/// The name a host function is registered under: `module.name` for a
/// qualified call.
pub open spec fn key_of(i: IdentityV) -> Seq<char> {
    match i {
        IdentityV::Unqualified(n) => n,
        IdentityV::Qualified(m, n) => m + "."@ + n,
    }
}

pub fn function_key(identity: &FunctionIdentity) -> (r: String)
    ensures
        r@ == key_of(identity_view(*identity)),
{
    match identity {
        FunctionIdentity::Unqualified(name) => name.clone(),
        FunctionIdentity::Qualified { module, name } => {
            let mut key = module.clone();
            string_push_str(&mut key, ".");
            string_push_str(&mut key, name.as_str());
            key
        },
    }
}

/// Whether a host function may not be registered under `name`.
pub open spec fn reserved(name: Seq<char>) -> bool {
    name == "fetch"@
}

pub fn is_reserved(name: &str) -> (r: bool)
    ensures
        r == reserved(name@),
{
    str_eq(name, "fetch")
}

/// How a constraint is named when an input does not meet it.
pub open spec fn expected_text(c: InputConstraint) -> Seq<char> {
    match c {
        InputConstraint::HtmlLike => "an HTML-like value"@,
        InputConstraint::NumberLike => "a number-like value"@,
        InputConstraint::Any => Seq::empty(),
    }
}

/// Whether a value meets a constraint.
pub open spec fn meets(c: InputConstraint, v: ValueV) -> bool {
    match c {
        InputConstraint::Any => true,
        InputConstraint::HtmlLike => html_like(v),
        InputConstraint::NumberLike => v is Number,
    }
}

/// The first place a requirement is used, if any.
pub open spec fn first_use(uses: Seq<Span>) -> Option<Span> {
    if uses.len() > 0 {
        Some(uses[0])
    } else {
        None
    }
}

/// Why a required input refuses a run: it is missing, or its value does
/// not meet the constraint.
pub open spec fn input_failure(r: InputV, inputs: Seq<(Seq<char>, (ValueV, Visibility))>) -> Option<(Seq<char>, Option<Span>)> {
    match field_get(inputs, r.name) {
        None => Some(("missing required input `"@ + r.name + "`"@, first_use(r.uses))),
        Some(b) => if meets(r.constraint, b.0) {
            None
        } else {
            Some((
                "input `"@ + r.name + "` requires "@ + expected_text(r.constraint) + ", got "@ + kind_name(kind_of(b.0)),
                first_use(r.uses),
            ))
        },
    }
}

/// The first required input, from `i` on, that refuses a run.
pub open spec fn first_input_failure(rs: Seq<InputV>, inputs: Seq<(Seq<char>, (ValueV, Visibility))>, i: int) -> Option<(Seq<char>, Option<Span>)>
    decreases rs.len() - i,
{
    if i < 0 || i >= rs.len() {
        None
    } else {
        match input_failure(rs[i], inputs) {
            Some(e) => Some(e),
            None => first_input_failure(rs, inputs, i + 1),
        }
    }
}

/// The first required function, from `i` on, that the host does not
/// provide.
pub open spec fn first_missing_function(fs: Seq<FunctionReqV>, host: Seq<Seq<char>>, i: int) -> Option<(Seq<char>, Option<Span>)>
    decreases fs.len() - i,
{
    if i < 0 || i >= fs.len() {
        None
    } else if host.contains(key_of(fs[i].identity)) {
        first_missing_function(fs, host, i + 1)
    } else {
        Some(("missing required function `"@ + key_of(fs[i].identity) + "`"@, first_use(fs[i].uses)))
    }
}

/// Whether a run may start: the first input that refuses it, else the
/// first function the host lacks, is the error.
pub open spec fn requirements_check(
    inputs_required: Seq<InputV>,
    functions_required: Seq<FunctionReqV>,
    inputs: Seq<(Seq<char>, (ValueV, Visibility))>,
    host: Seq<Seq<char>>,
) -> Result<(), (Seq<char>, Option<Span>)> {
    match first_input_failure(inputs_required, inputs, 0) {
        Some(e) => Err(e),
        None => match first_missing_function(functions_required, host, 0) {
            Some(e) => Err(e),
            None => Ok(()),
        },
    }
}

/// The texts of host function names.
pub open spec fn host_names(s: Seq<String>) -> Seq<Seq<char>> {
    Seq::new(s.len(), |i: int| s[i]@)
}

fn first_span(uses: &[Span]) -> (r: Option<Span>)
    ensures
        r == first_use(uses@),
{
    if uses.len() > 0 {
        Some(uses[0])
    } else {
        None
    }
}

pub(crate) fn has_name(names: &[String], name: &str) -> (r: bool)
    ensures
        r == host_names(names@).contains(name@),
{
    let mut i: usize = 0;
    while i < names.len()
        invariant
            i <= names@.len(),
            forall|k: int| 0 <= k < i ==> names@[k]@ != name@,
        decreases names@.len() - i,
    {
        if str_eq(names[i].as_str(), name) {
            proof {
                assert(host_names(names@)[i as int] == name@);
            }
            return true;
        }
        i = i + 1;
    }
    proof {
        if host_names(names@).contains(name@) {
            let k = choose|k: int| 0 <= k < host_names(names@).len() && host_names(names@)[k] == name@;
            assert(names@[k]@ == name@);
        }
    }
    false
}

/// Checks that a program may run over `inputs` with the host functions
/// named in `host_functions` (see `requirements_check`).
pub fn check_requirements(requirements: &Requirements, inputs: &Inputs, host_functions: &[String]) -> (r: Result<(), ExecutionError>)
    ensures
        match requirements_check(requirements@.inputs, requirements@.functions, inputs@, host_names(host_functions@)) {
            Ok(()) => r is Ok,
            Err(e) => r matches Err(x) && x@ == e,
        },
{
    let required = requirements.inputs();
    let ghost rs = requirements@.inputs;
    let mut i: usize = 0;
    while i < required.len()
        invariant
            rs == requirements@.inputs,
            required@.len() == rs.len(),
            forall|k: int| 0 <= k < required@.len() ==> required@[k]@ == rs[k],
            i <= rs.len(),
            first_input_failure(rs, inputs@, 0) == first_input_failure(rs, inputs@, i as int),
        decreases rs.len() - i,
    {
        let requirement = &required[i];
        proof {
            assert(requirement@ == rs[i as int]);
        }
        let name = requirement.name();
        match inputs.get(name) {
            None => {
                let mut message = "missing required input `".to_owned();
                string_push_str(&mut message, name);
                string_push_str(&mut message, "`");
                proof {
                    assert(input_failure(rs[i as int], inputs@) == Some((message@, first_use(rs[i as int].uses))));
                }
                return Err(ExecutionError::from_message(message, first_span(requirement.uses())));
            },
            Some(value) => {
                let constraint = requirement.constraint();
                let ok = match constraint {
                    InputConstraint::Any => true,
                    InputConstraint::HtmlLike => is_html_like(value),
                    InputConstraint::NumberLike => match value.kind() {
                        crate::runtime::ValueKind::Number => true,
                        _ => false,
                    },
                };
                proof {
                    assert(ok == meets(rs[i as int].constraint, value@));
                }
                if !ok {
                    let expected = match constraint {
                        InputConstraint::HtmlLike => "an HTML-like value",
                        InputConstraint::NumberLike => "a number-like value",
                        InputConstraint::Any => "",
                    };
                    let mut message = "input `".to_owned();
                    string_push_str(&mut message, name);
                    string_push_str(&mut message, "` requires ");
                    string_push_str(&mut message, expected);
                    string_push_str(&mut message, ", got ");
                    string_push_str(&mut message, value.kind().name());
                    proof {
                        if constraint is Any {
                            assert(false);
                        }
                        assert(expected@ == expected_text(constraint));
                        assert(input_failure(rs[i as int], inputs@) == Some((message@, first_use(rs[i as int].uses))));
                    }
                    return Err(ExecutionError::from_message(message, first_span(requirement.uses())));
                }
                proof {
                    assert(input_failure(rs[i as int], inputs@) is None);
                }
            },
        }
        i = i + 1;
    }
    let functions = requirements.functions();
    let ghost fs = requirements@.functions;
    let mut j: usize = 0;
    while j < functions.len()
        invariant
            fs == requirements@.functions,
            functions@.len() == fs.len(),
            forall|k: int| 0 <= k < functions@.len() ==> functions@[k]@ == fs[k],
            j <= fs.len(),
            rs == requirements@.inputs,
            first_input_failure(rs, inputs@, 0) is None,
            first_missing_function(fs, host_names(host_functions@), 0)
                == first_missing_function(fs, host_names(host_functions@), j as int),
        decreases fs.len() - j,
    {
        proof {
            assert(functions@[j as int]@ == fs[j as int]);
        }
        let key = function_key(functions[j].identity());
        if !has_name(host_functions, key.as_str()) {
            let mut message = "missing required function `".to_owned();
            string_push_str(&mut message, key.as_str());
            string_push_str(&mut message, "`");
            proof {
                assert(key@ == key_of(fs[j as int].identity));
                assert(!host_names(host_functions@).contains(key_of(fs[j as int].identity)));
                assert(first_missing_function(fs, host_names(host_functions@), j as int)
                    == Some((message@, first_use(fs[j as int].uses))));
            }
            return Err(ExecutionError::from_message(message, first_span(functions[j].uses())));
        }
        j = j + 1;
    }
    Ok(())
}


proof fn lemma_inputs_met(rs: Seq<InputV>, inputs: Seq<(Seq<char>, (ValueV, Visibility))>, i: int)
    requires
        0 <= i,
        forall|k: int| 0 <= k < rs.len() ==> ((#[trigger] field_get(inputs, rs[k].name)) matches Some(b)
            && meets(rs[k].constraint, b.0)),
    ensures
        first_input_failure(rs, inputs, i) is None,
    decreases rs.len() - i,
{
    if i < rs.len() {
        assert(field_get(inputs, rs[i].name) is Some);
        lemma_inputs_met(rs, inputs, i + 1);
    }
}

proof fn lemma_functions_met(fs: Seq<FunctionReqV>, host: Seq<Seq<char>>, i: int)
    requires
        0 <= i,
        forall|k: int| 0 <= k < fs.len() ==> host.contains(#[trigger] key_of(fs[k].identity)),
    ensures
        first_missing_function(fs, host, i) is None,
    decreases fs.len() - i,
{
    if i < fs.len() {
        assert(host.contains(key_of(fs[i].identity)));
        lemma_functions_met(fs, host, i + 1);
    }
}

/// A run may start when every required input is given and meets its
/// constraint and the host provides every required function.
pub proof fn law_met_requirements_let_a_run_start(
    rs: Seq<InputV>,
    fs: Seq<FunctionReqV>,
    inputs: Seq<(Seq<char>, (ValueV, Visibility))>,
    host: Seq<Seq<char>>,
)
    requires
        forall|k: int| 0 <= k < rs.len() ==> ((#[trigger] field_get(inputs, rs[k].name)) matches Some(b)
            && meets(rs[k].constraint, b.0)),
        forall|k: int| 0 <= k < fs.len() ==> host.contains(#[trigger] key_of(fs[k].identity)),
    ensures
        requirements_check(rs, fs, inputs, host) == Ok::<(), (Seq<char>, Option<Span>)>(()),
{
    lemma_inputs_met(rs, inputs, 0);
    lemma_functions_met(fs, host, 0);
}

proof fn lemma_missing_input_refuses(rs: Seq<InputV>, inputs: Seq<(Seq<char>, (ValueV, Visibility))>, i: int, k: int)
    requires
        0 <= i <= k < rs.len(),
        field_get(inputs, rs[k].name) is None,
    ensures
        first_input_failure(rs, inputs, i) is Some,
    decreases k - i,
{
    if i < k && input_failure(rs[i], inputs) is None {
        lemma_missing_input_refuses(rs, inputs, i + 1, k);
    }
}

/// A run that lacks a required input is refused, whatever the host
/// provides: the error is that of the first required input that refuses it.
pub proof fn law_missing_input_refuses_a_run(
    rs: Seq<InputV>,
    fs: Seq<FunctionReqV>,
    inputs: Seq<(Seq<char>, (ValueV, Visibility))>,
    host: Seq<Seq<char>>,
    k: int,
)
    requires
        0 <= k < rs.len(),
        field_get(inputs, rs[k].name) is None,
    ensures
        requirements_check(rs, fs, inputs, host) is Err,
        requirements_check(rs, fs, inputs, host) == Err::<(), (Seq<char>, Option<Span>)>(
            first_input_failure(rs, inputs, 0)->Some_0,
        ),
{
    lemma_missing_input_refuses(rs, inputs, 0, k);
}

} // verus!
