//! What a compiled program needs from its host: the inputs it reads and the
//! host functions it calls.

use vstd::prelude::*;
use crate::source::Span;
use crate::text::str_eq;

verus! {

/// A constraint inferred on how an input is used.
#[derive(Clone, Copy, Debug, PartialEq, Eq, Structural)]
pub enum InputConstraint {
    Any,
    HtmlLike,
    NumberLike,
}

impl Default for InputConstraint {
    fn default() -> (r: Self)
        ensures
            r == InputConstraint::Any,
    {
        InputConstraint::Any
    }
}

/// Which host function a call names.
#[derive(Clone, Debug, PartialEq, Eq)]
pub enum FunctionIdentity {
    Unqualified(String),
    Qualified { module: String, name: String },
}

#[derive(Debug, PartialEq, Eq)]
pub struct InputRequirement {
    name: String,
    constraint: InputConstraint,
    uses: Vec<Span>,
}

#[derive(Debug, PartialEq, Eq)]
pub struct FunctionRequirement {
    identity: FunctionIdentity,
    arities: Vec<usize>,
    uses: Vec<Span>,
}

#[derive(Debug, PartialEq, Eq)]
pub struct Requirements {
    inputs: Vec<InputRequirement>,
    functions: Vec<FunctionRequirement>,
}

// ---------------------------------------------------------------------------
// The mathematical view
// ---------------------------------------------------------------------------

pub enum IdentityV {
    Unqualified(Seq<char>),
    Qualified(Seq<char>, Seq<char>),
}

pub struct InputV {
    pub name: Seq<char>,
    pub constraint: InputConstraint,
    pub uses: Seq<Span>,
}

pub struct FunctionReqV {
    pub identity: IdentityV,
    pub arities: Seq<usize>,
    pub uses: Seq<Span>,
}

pub struct RequirementsV {
    pub inputs: Seq<InputV>,
    pub functions: Seq<FunctionReqV>,
}

pub open spec fn identity_view(i: FunctionIdentity) -> IdentityV {
    match i {
        FunctionIdentity::Unqualified(n) => IdentityV::Unqualified(n@),
        FunctionIdentity::Qualified { module, name } => IdentityV::Qualified(module@, name@),
    }
}

impl View for InputRequirement {
    type V = InputV;

    closed spec fn view(&self) -> InputV {
        InputV { name: self.name@, constraint: self.constraint, uses: self.uses@ }
    }
}

impl View for FunctionRequirement {
    type V = FunctionReqV;

    closed spec fn view(&self) -> FunctionReqV {
        FunctionReqV { identity: identity_view(self.identity), arities: self.arities@, uses: self.uses@ }
    }
}

impl View for Requirements {
    type V = RequirementsV;

    closed spec fn view(&self) -> RequirementsV {
        RequirementsV {
            inputs: Seq::new(self.inputs@.len(), |i: int| self.inputs@[i]@),
            functions: Seq::new(self.functions@.len(), |i: int| self.functions@[i]@),
        }
    }
}

/// Arities are kept strictly increasing.
pub open spec fn strictly_sorted(s: Seq<usize>) -> bool {
    forall|i: int, j: int| 0 <= i < j < s.len() ==> s[i] < s[j]
}

/// Every input is named once, every function identity occurs once, and the
/// arities of each function are strictly increasing.
pub open spec fn requirements_wf(r: RequirementsV) -> bool {
    &&& forall|i: int, j: int| 0 <= i < j < r.inputs.len() ==> r.inputs[i].name != r.inputs[j].name
    &&& forall|i: int, j: int|
        0 <= i < j < r.functions.len() ==> r.functions[i].identity != r.functions[j].identity
    &&& forall|i: int| 0 <= i < r.functions.len() ==> strictly_sorted(#[trigger] r.functions[i].arities)
}

/// The position of the input called `name`, if there is one.
pub open spec fn input_index(inputs: Seq<InputV>, name: Seq<char>) -> Option<int> {
    if exists|i: int| 0 <= i < inputs.len() && inputs[i].name == name {
        Some(choose|i: int| 0 <= i < inputs.len() && inputs[i].name == name)
    } else {
        None
    }
}

/// The position of the function requirement with `identity`, if there is one.
pub open spec fn function_index(functions: Seq<FunctionReqV>, identity: IdentityV) -> Option<int> {
    if exists|i: int| 0 <= i < functions.len() && functions[i].identity == identity {
        Some(choose|i: int| 0 <= i < functions.len() && functions[i].identity == identity)
    } else {
        None
    }
}

/// `require_input`: the new requirements and the index of the input.
pub open spec fn spec_require_input(r: RequirementsV, name: Seq<char>, span: Span) -> (RequirementsV, int) {
    match input_index(r.inputs, name) {
        Some(i) => (
            RequirementsV {
                inputs: r.inputs.update(i, InputV { uses: r.inputs[i].uses.push(span), ..r.inputs[i] }),
                ..r
            },
            i,
        ),
        None => (
            RequirementsV {
                inputs: r.inputs.push(InputV { name, constraint: InputConstraint::Any, uses: seq![span] }),
                ..r
            },
            r.inputs.len() as int,
        ),
    }
}

/// How a constraint combines with the current one: `Any` takes the new
/// constraint, an equal or `Any` new constraint keeps it, and anything else
/// is refused with the new constraint.
pub open spec fn combine_constraint(current: InputConstraint, next: InputConstraint) -> Result<InputConstraint, InputConstraint> {
    if current == InputConstraint::Any {
        Ok(next)
    } else if current == next || next == InputConstraint::Any {
        Ok(current)
    } else {
        Err(next)
    }
}

/// `arities` with `a` inserted in order (it must not occur already).
pub open spec fn insert_sorted(arities: Seq<usize>, a: usize) -> Seq<usize>
    decreases arities.len(),
{
    if arities.len() == 0 {
        seq![a]
    } else if a < arities[0] {
        seq![a] + arities
    } else {
        seq![arities[0]] + insert_sorted(arities.drop_first(), a)
    }
}

pub open spec fn add_arity(arities: Seq<usize>, a: usize) -> Seq<usize> {
    if arities.contains(a) {
        arities
    } else {
        insert_sorted(arities, a)
    }
}

/// `require_function`: the new requirements.
pub open spec fn spec_require_function(r: RequirementsV, identity: IdentityV, arity: usize, span: Span) -> RequirementsV {
    match function_index(r.functions, identity) {
        Some(i) => RequirementsV {
            functions: r.functions.update(
                i,
                FunctionReqV {
                    identity,
                    arities: add_arity(r.functions[i].arities, arity),
                    uses: r.functions[i].uses.push(span),
                },
            ),
            ..r
        },
        None => RequirementsV {
            functions: r.functions.push(FunctionReqV { identity, arities: seq![arity], uses: seq![span] }),
            ..r
        },
    }
}

pub proof fn lemma_insert_sorted(arities: Seq<usize>, a: usize)
    requires
        strictly_sorted(arities),
        !arities.contains(a),
    ensures
        strictly_sorted(insert_sorted(arities, a)),
        insert_sorted(arities, a).len() == arities.len() + 1,
        forall|x: usize| insert_sorted(arities, a).contains(x) <==> (arities.contains(x) || x == a),
    decreases arities.len(),
{
    if arities.len() == 0 {
        assert(seq![a][0] == a);
        assert(seq![a].contains(a));
    } else if a < arities[0] {
        let r = seq![a] + arities;
        assert forall|x: usize| r.contains(x) <==> (arities.contains(x) || x == a) by {
            if r.contains(x) {
                let k = choose|k: int| 0 <= k < r.len() && r[k] == x;
                if k > 0 {
                    assert(arities[k - 1] == x);
                }
            }
            if arities.contains(x) {
                let k = choose|k: int| 0 <= k < arities.len() && arities[k] == x;
                assert(r[k + 1] == x);
            }
            if x == a {
                assert(r[0] == x);
            }
        }
    } else {
        let rest = arities.drop_first();
        assert(strictly_sorted(rest));
        assert forall|x: usize| rest.contains(x) ==> arities.contains(x) by {
            if rest.contains(x) {
                let k = choose|k: int| 0 <= k < rest.len() && rest[k] == x;
                assert(arities[k + 1] == x);
            }
        }
        lemma_insert_sorted(rest, a);
        let ins = insert_sorted(rest, a);
        let r = seq![arities[0]] + ins;
        assert(arities[0] != a) by {
            assert(arities[0] == arities[0]);
            if arities[0] == a {
                assert(arities.contains(a));
            }
        }
        assert forall|x: usize| ins.contains(x) implies arities[0] < x by {
            if x != a {
                assert(rest.contains(x));
                let k = choose|k: int| 0 <= k < rest.len() && rest[k] == x;
                assert(rest[k] == arities[k + 1]);
            }
        }
        assert forall|i: int, j: int| 0 <= i < j < r.len() implies r[i] < r[j] by {
            if i == 0 {
                assert(ins.contains(r[j]));
            }
        }
        assert forall|x: usize| r.contains(x) <==> (arities.contains(x) || x == a) by {
            if r.contains(x) {
                let k = choose|k: int| 0 <= k < r.len() && r[k] == x;
                if k > 0 {
                    assert(ins.contains(x));
                    if x != a {
                        assert(rest.contains(x));
                    }
                } else {
                    assert(arities[0] == x);
                }
            }
            if arities.contains(x) {
                let k = choose|k: int| 0 <= k < arities.len() && arities[k] == x;
                if k == 0 {
                    assert(r[0] == x);
                } else {
                    assert(rest[k - 1] == x);
                    assert(rest.contains(x));
                    assert(ins.contains(x));
                    let m = choose|m: int| 0 <= m < ins.len() && ins[m] == x;
                    assert(r[m + 1] == x);
                }
            }
            if x == a {
                assert(ins.contains(x));
                let m = choose|m: int| 0 <= m < ins.len() && ins[m] == x;
                assert(r[m + 1] == x);
            }
        }
    }
}

fn identity_eq(a: &FunctionIdentity, b: &FunctionIdentity) -> (r: bool)
    ensures
        r == (identity_view(*a) == identity_view(*b)),
{
    match (a, b) {
        (FunctionIdentity::Unqualified(x), FunctionIdentity::Unqualified(y)) => str_eq(x.as_str(), y.as_str()),
        (
            FunctionIdentity::Qualified { module: m1, name: n1 },
            FunctionIdentity::Qualified { module: m2, name: n2 },
        ) => str_eq(m1.as_str(), m2.as_str()) && str_eq(n1.as_str(), n2.as_str()),
        _ => false,
    }
}

impl Default for Requirements {
    fn default() -> (r: Self)
        ensures
            r@.inputs.len() == 0,
            r@.functions.len() == 0,
    {
        Requirements::new()
    }
}

impl Requirements {
    /// No inputs and no functions.
    pub fn new() -> (r: Self)
        ensures
            r@.inputs.len() == 0,
            r@.functions.len() == 0,
            requirements_wf(r@),
    {
        Requirements { inputs: Vec::new(), functions: Vec::new() }
    }

    pub fn inputs(&self) -> (r: &[InputRequirement])
        ensures
            r@.len() == self@.inputs.len(),
            forall|i: int| 0 <= i < r@.len() ==> r@[i]@ == self@.inputs[i],
    {
        self.inputs.as_slice()
    }

    pub fn functions(&self) -> (r: &[FunctionRequirement])
        ensures
            r@.len() == self@.functions.len(),
            forall|i: int| 0 <= i < r@.len() ==> r@[i]@ == self@.functions[i],
    {
        self.functions.as_slice()
    }

    /// The index of the input called `name`, if there is one.
    pub fn input_position(&self, name: &str) -> (r: Option<usize>)
        requires
            requirements_wf(self@),
        ensures
            match input_index(self@.inputs, name@) {
                Some(i) => r matches Some(j) && j as int == i,
                None => r is None,
            },
    {
        let mut i: usize = 0;
        while i < self.inputs.len()
            invariant
                requirements_wf(self@),
                i <= self.inputs@.len(),
                forall|j: int| 0 <= j < i ==> self@.inputs[j].name != name@,
            decreases self.inputs@.len() - i,
        {
            if str_eq(self.inputs[i].name.as_str(), name) {
                proof {
                    assert(input_index(self@.inputs, name@) == Some(i as int)) by {
                        let k = choose|k: int| 0 <= k < self@.inputs.len() && self@.inputs[k].name == name@;
                        if k != i {
                            assert(self@.inputs[k].name != self@.inputs[i as int].name);
                        }
                    }
                }
                return Some(i);
            }
            i = i + 1;
        }
        None
    }

    /// Records a use of the input `name` at `span` and returns its index:
    /// the index it already had, or the index of a new input with no
    /// constraint.
    pub fn require_input(&mut self, name: &str, span: Span) -> (index: usize)
        requires
            requirements_wf(old(self)@),
        ensures
            (final(self)@, index as int) == spec_require_input(old(self)@, name@, span),
            requirements_wf(final(self)@),
            index < final(self)@.inputs.len(),
            final(self)@.inputs[index as int].name == name@,
    {
        let mut i: usize = 0;
        while i < self.inputs.len()
            invariant
                self@ == old(self)@,
                requirements_wf(self@),
                i <= self.inputs@.len(),
                forall|j: int| 0 <= j < i ==> self@.inputs[j].name != name@,
            decreases self.inputs@.len() - i,
        {
            if str_eq(self.inputs[i].name.as_str(), name) {
                let ghost before = self@;
                proof {
                    assert(input_index(before.inputs, name@) == Some(i as int)) by {
                        let k = choose|k: int| 0 <= k < before.inputs.len() && before.inputs[k].name == name@;
                        if k != i {
                            assert(before.inputs[k].name != before.inputs[i as int].name);
                        }
                    }
                }
                self.inputs[i].uses.push(span);
                proof {
                    assert(self@.inputs =~= before.inputs.update(
                        i as int,
                        InputV { uses: before.inputs[i as int].uses.push(span), ..before.inputs[i as int] },
                    ));
                    assert(self@.functions =~= before.functions);
                }
                return i;
            }
            i = i + 1;
        }
        let ghost before = self@;
        let mut uses: Vec<Span> = Vec::new();
        uses.push(span);
        self.inputs.push(InputRequirement { name: name.to_owned(), constraint: InputConstraint::Any, uses });
        proof {
            assert(input_index(before.inputs, name@) is None);
            assert(uses@ =~= seq![span]);
            assert(self@.inputs =~= before.inputs.push(InputV { name: name@, constraint: InputConstraint::Any, uses: seq![span] }));
            assert(self@.functions =~= before.functions);
        }
        self.inputs.len() - 1
    }

    /// Combines `constraint` with the one the input at `index` has; refuses
    /// it, with the refused constraint, when the two disagree.
    pub fn constrain_input(&mut self, index: usize, constraint: InputConstraint) -> (r: Result<(), InputConstraint>)
        requires
            index < old(self)@.inputs.len(),
            requirements_wf(old(self)@),
        ensures
            requirements_wf(final(self)@),
            match combine_constraint(old(self)@.inputs[index as int].constraint, constraint) {
                Ok(c) => r is Ok && final(self)@ == (RequirementsV {
                    inputs: old(self)@.inputs.update(index as int, InputV { constraint: c, ..old(self)@.inputs[index as int] }),
                    ..old(self)@
                }),
                Err(e) => r == Err::<(), InputConstraint>(e) && final(self)@ == old(self)@,
            },
    {
        let ghost before = self@;
        let current = self.inputs[index].constraint;
        if current == InputConstraint::Any {
            self.inputs[index].constraint = constraint;
        } else if current == constraint || constraint == InputConstraint::Any {
        } else {
            return Err(constraint);
        }
        proof {
            assert(self@.inputs =~= before.inputs.update(
                index as int,
                InputV {
                    constraint: combine_constraint(before.inputs[index as int].constraint, constraint)->Ok_0,
                    ..before.inputs[index as int]
                },
            ));
            assert(self@.functions =~= before.functions);
        }
        Ok(())
    }

    /// Records a call of `identity` with `arity` arguments at `span`.
    pub fn require_function(&mut self, identity: FunctionIdentity, arity: usize, span: Span)
        requires
            requirements_wf(old(self)@),
        ensures
            final(self)@ == spec_require_function(old(self)@, identity_view(identity), arity, span),
            requirements_wf(final(self)@),
    {
        let ghost idv = identity_view(identity);
        let mut i: usize = 0;
        while i < self.functions.len()
            invariant
                self@ == old(self)@,
                requirements_wf(self@),
                i <= self.functions@.len(),
                idv == identity_view(identity),
                forall|j: int| 0 <= j < i ==> self@.functions[j].identity != idv,
            decreases self.functions@.len() - i,
        {
            if identity_eq(&self.functions[i].identity, &identity) {
                let ghost before = self@;
                proof {
                    assert(function_index(before.functions, idv) == Some(i as int)) by {
                        let k = choose|k: int| 0 <= k < before.functions.len() && before.functions[k].identity == idv;
                        if k != i {
                            assert(before.functions[k].identity != before.functions[i as int].identity);
                        }
                    }
                }
                let ghost old_ar = before.functions[i as int].arities;
                let present = contains_usize(&self.functions[i].arities, arity);
                if !present {
                    insert_arity(&mut self.functions[i].arities, arity);
                    proof {
                        lemma_insert_sorted(old_ar, arity);
                    }
                }
                self.functions[i].uses.push(span);
                proof {
                    assert(self@.functions[i as int].arities == add_arity(old_ar, arity));
                    assert(self@.functions[i as int].identity == idv);
                    assert(self@.functions =~= before.functions.update(
                        i as int,
                        FunctionReqV {
                            identity: idv,
                            arities: add_arity(old_ar, arity),
                            uses: before.functions[i as int].uses.push(span),
                        },
                    ));
                    assert(self@.inputs =~= before.inputs);
                    if present {
                        assert(strictly_sorted(old_ar));
                    }
                    assert forall|a: int| 0 <= a < self@.functions.len() implies strictly_sorted(
                        #[trigger] self@.functions[a].arities,
                    ) by {
                        if a != i {
                            assert(self@.functions[a] == before.functions[a]);
                        }
                    }
                }
                return;
            }
            i = i + 1;
        }
        let ghost before = self@;
        let mut arities: Vec<usize> = Vec::new();
        arities.push(arity);
        let mut uses: Vec<Span> = Vec::new();
        uses.push(span);
        self.functions.push(FunctionRequirement { identity, arities, uses });
        proof {
            assert(function_index(before.functions, idv) is None);
            assert(arities@ =~= seq![arity]);
            assert(uses@ =~= seq![span]);
            assert(self@.functions =~= before.functions.push(FunctionReqV { identity: idv, arities: seq![arity], uses: seq![span] }));
            assert(self@.inputs =~= before.inputs);
            assert forall|a: int| 0 <= a < self@.functions.len() implies strictly_sorted(
                #[trigger] self@.functions[a].arities,
            ) by {
                if a < before.functions.len() {
                    assert(self@.functions[a] == before.functions[a]);
                }
            }
        }
    }
}

fn contains_usize(v: &Vec<usize>, x: usize) -> (r: bool)
    ensures
        r == v@.contains(x),
{
    let mut i: usize = 0;
    while i < v.len()
        invariant
            i <= v@.len(),
            forall|j: int| 0 <= j < i ==> v@[j] != x,
        decreases v@.len() - i,
    {
        if v[i] == x {
            return true;
        }
        i = i + 1;
    }
    false
}

/// Inserts `a` into a strictly increasing vector that lacks it, keeping the
/// order.
fn insert_arity(v: &mut Vec<usize>, a: usize)
    requires
        strictly_sorted(old(v)@),
        !old(v)@.contains(a),
    ensures
        final(v)@ == insert_sorted(old(v)@, a),
{
    let ghost s = v@;
    proof {
        assert(s.subrange(0, s.len() as int) =~= s);
        assert(s.subrange(0, 0) + insert_sorted(s, a) =~= insert_sorted(s, a));
    }
    let mut i: usize = 0;
    while i < v.len() && v[i] < a
        invariant
            v@ == s,
            i <= s.len(),
            forall|j: int| 0 <= j < i ==> s[j] < a,
            insert_sorted(s, a) == s.subrange(0, i as int) + insert_sorted(s.subrange(i as int, s.len() as int), a),
        decreases s.len() - i,
    {
        proof {
            let rest = s.subrange(i as int, s.len() as int);
            assert(rest[0] == s[i as int]);
            assert(rest.drop_first() =~= s.subrange(i + 1, s.len() as int));
            assert(s.subrange(0, i as int) + (seq![s[i as int]] + insert_sorted(rest.drop_first(), a))
                =~= s.subrange(0, i + 1) + insert_sorted(rest.drop_first(), a));
        }
        i = i + 1;
    }
    proof {
        let rest = s.subrange(i as int, s.len() as int);
        if rest.len() > 0 {
            assert(rest[0] == s[i as int]);
            assert(s[i as int] != a);
        }
        assert(s.subrange(0, i as int) + (seq![a] + rest) =~= s.subrange(0, i as int) + seq![a] + rest);
        assert(s.subrange(0, i as int) + seq![a] + rest =~= s.subrange(0, i as int).push(a) + rest);
        assert(s.subrange(0, i as int) + seq![a] =~= s.subrange(0, i as int).push(a));
        assert(s.subrange(0, i as int) + rest =~= s);
    }
    v.insert(i, a);
    proof {
        let rest = s.subrange(i as int, s.len() as int);
        assert(v@ =~= s.subrange(0, i as int) + (seq![a] + rest));
    }
}

impl InputRequirement {
    pub fn name(&self) -> (r: &str)
        ensures
            r@ == self@.name,
    {
        self.name.as_str()
    }

    pub fn constraint(&self) -> (r: InputConstraint)
        ensures
            r == self@.constraint,
    {
        self.constraint
    }

    pub fn uses(&self) -> (r: &[Span])
        ensures
            r@ == self@.uses,
    {
        self.uses.as_slice()
    }
}

impl FunctionRequirement {
    pub fn identity(&self) -> (r: &FunctionIdentity)
        ensures
            identity_view(*r) == self@.identity,
    {
        &self.identity
    }

    pub fn arities(&self) -> (r: &[usize])
        ensures
            r@ == self@.arities,
    {
        self.arities.as_slice()
    }

    pub fn uses(&self) -> (r: &[Span])
        ensures
            r@ == self@.uses,
    {
        self.uses.as_slice()
    }
}


// ---------------------------------------------------------------------------
// Laws
// ---------------------------------------------------------------------------

proof fn lemma_input_index_unique(inputs: Seq<InputV>, name: Seq<char>, i: int)
    requires
        forall|a: int, b: int| 0 <= a < b < inputs.len() ==> inputs[a].name != inputs[b].name,
        0 <= i < inputs.len(),
        inputs[i].name == name,
    ensures
        input_index(inputs, name) == Some(i),
{
    let k = choose|k: int| 0 <= k < inputs.len() && inputs[k].name == name;
    if k != i {
        if k < i {
            assert(inputs[k].name != inputs[i].name);
        } else {
            assert(inputs[i].name != inputs[k].name);
        }
    }
}

/// Requiring an input keeps the requirements well formed, and the input
/// named `name` is at the returned position.
pub proof fn law_require_input_wf(r: RequirementsV, name: Seq<char>, span: Span)
    requires
        requirements_wf(r),
    ensures
        requirements_wf(spec_require_input(r, name, span).0),
        0 <= spec_require_input(r, name, span).1 < spec_require_input(r, name, span).0.inputs.len(),
        spec_require_input(r, name, span).0.inputs[spec_require_input(r, name, span).1].name == name,
{
    let (r1, i) = spec_require_input(r, name, span);
    match input_index(r.inputs, name) {
        Some(k) => {
            assert(forall|a: int| 0 <= a < r.inputs.len() ==> #[trigger] r1.inputs[a].name == r.inputs[a].name);
        },
        None => {
            assert forall|a: int, b: int| 0 <= a < b < r1.inputs.len() implies r1.inputs[a].name != r1.inputs[b].name by {
                if b == r.inputs.len() {
                    assert(r.inputs[a].name != name);
                }
            }
        },
    }
}

/// Requiring an input that is already required adds no second entry: the
/// second request finds the same position and only records its use.
pub proof fn law_require_input_once(r: RequirementsV, name: Seq<char>, first: Span, second: Span)
    requires
        requirements_wf(r),
    ensures
        spec_require_input(spec_require_input(r, name, first).0, name, second).1 == spec_require_input(r, name, first).1,
        spec_require_input(spec_require_input(r, name, first).0, name, second).0.inputs.len()
            == spec_require_input(r, name, first).0.inputs.len(),
{
    law_require_input_wf(r, name, first);
    let (r1, i) = spec_require_input(r, name, first);
    lemma_input_index_unique(r1.inputs, name, i);
}

/// Inputs keep their positions, names and constraints when another is
/// required; a name not yet required is appended last.
pub proof fn law_require_input_order(r: RequirementsV, name: Seq<char>, span: Span)
    requires
        requirements_wf(r),
    ensures
        forall|k: int| 0 <= k < r.inputs.len() ==> {
            &&& (#[trigger] spec_require_input(r, name, span).0.inputs[k]).name == r.inputs[k].name
            &&& spec_require_input(r, name, span).0.inputs[k].constraint == r.inputs[k].constraint
        },
        (forall|k: int| 0 <= k < r.inputs.len() ==> r.inputs[k].name != name) ==> {
            &&& spec_require_input(r, name, span).1 == r.inputs.len()
            &&& spec_require_input(r, name, span).0.inputs.len() == r.inputs.len() + 1
        },
{
    if forall|k: int| 0 <= k < r.inputs.len() ==> r.inputs[k].name != name {
        assert(input_index(r.inputs, name) is None);
    }
}

/// Constraints combine with `Any` as a neutral element on either side, each
/// constraint combines with itself, and two constraints conflict in one
/// order exactly when they conflict in the other.
pub proof fn law_combine_constraint(a: InputConstraint, b: InputConstraint)
    ensures
        combine_constraint(a, InputConstraint::Any) == Ok::<InputConstraint, InputConstraint>(a),
        combine_constraint(InputConstraint::Any, a) == Ok::<InputConstraint, InputConstraint>(a),
        combine_constraint(a, a) == Ok::<InputConstraint, InputConstraint>(a),
        combine_constraint(a, b) is Err <==> combine_constraint(b, a) is Err,
        combine_constraint(a, b) is Err <==> (a != InputConstraint::Any && b != InputConstraint::Any && a != b),
{
}

proof fn lemma_function_index_unique(functions: Seq<FunctionReqV>, identity: IdentityV, i: int)
    requires
        forall|a: int, b: int| 0 <= a < b < functions.len() ==> functions[a].identity != functions[b].identity,
        0 <= i < functions.len(),
        functions[i].identity == identity,
    ensures
        function_index(functions, identity) == Some(i),
{
    let k = choose|k: int| 0 <= k < functions.len() && functions[k].identity == identity;
    if k != i {
        if k < i {
            assert(functions[k].identity != functions[i].identity);
        } else {
            assert(functions[i].identity != functions[k].identity);
        }
    }
}

/// Requiring a function keeps the requirements well formed: one entry per
/// identity, whose arities stay strictly increasing, keep every earlier
/// arity and gain the new one.
pub proof fn law_require_function_arities(r: RequirementsV, identity: IdentityV, arity: usize, span: Span)
    requires
        requirements_wf(r),
    ensures
        requirements_wf(spec_require_function(r, identity, arity, span)),
        function_index(spec_require_function(r, identity, arity, span).functions, identity) matches Some(i)
            && spec_require_function(r, identity, arity, span).functions[i].arities.contains(arity)
            && (forall|j: int| 0 <= j < r.functions.len() && r.functions[j].identity == identity
                ==> forall|x: usize| #[trigger] r.functions[j].arities.contains(x)
                    ==> spec_require_function(r, identity, arity, span).functions[i].arities.contains(x)),
{
    let r1 = spec_require_function(r, identity, arity, span);
    match function_index(r.functions, identity) {
        Some(i) => {
            let old_arities = r.functions[i].arities;
            assert(strictly_sorted(old_arities));
            if !old_arities.contains(arity) {
                lemma_insert_sorted(old_arities, arity);
            }
            let new_arities = r1.functions[i].arities;
            assert(strictly_sorted(new_arities));
            assert(new_arities.contains(arity));
            assert forall|k: int| 0 <= k < r1.functions.len() implies strictly_sorted(#[trigger] r1.functions[k].arities) by {
                if k != i {
                    assert(r1.functions[k] == r.functions[k]);
                }
            }
            assert forall|a: int, b: int| 0 <= a < b < r1.functions.len() implies r1.functions[a].identity != r1.functions[b].identity by {
                assert(r1.functions[a].identity == r.functions[a].identity);
                assert(r1.functions[b].identity == r.functions[b].identity);
            }
            lemma_function_index_unique(r1.functions, identity, i);
            assert forall|j: int| 0 <= j < r.functions.len() && r.functions[j].identity == identity implies
                forall|x: usize| #[trigger] r.functions[j].arities.contains(x) ==> new_arities.contains(x) by {
                lemma_function_index_unique(r.functions, identity, j);
            }
        },
        None => {
            let n = r.functions.len() as int;
            assert(r1.functions[n].arities == seq![arity]);
            assert(r1.functions[n].arities[0] == arity);
            assert forall|k: int| 0 <= k < r1.functions.len() implies strictly_sorted(#[trigger] r1.functions[k].arities) by {
                if k < n {
                    assert(r1.functions[k] == r.functions[k]);
                }
            }
            assert forall|a: int, b: int| 0 <= a < b < r1.functions.len() implies r1.functions[a].identity != r1.functions[b].identity by {
                if b == n {
                    assert(r.functions[a].identity != identity);
                }
            }
            lemma_function_index_unique(r1.functions, identity, n);
        },
    }
}

} // verus!
