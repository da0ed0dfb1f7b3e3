//! Where a program's variables live: the inputs a run starts with, and the
//! scopes of blocks and function calls over the state that all scopes of a
//! run share.

use vstd::prelude::*;
use crate::ast::Visibility;
use crate::input::{field_get, field_insert, first_field_from, lemma_field_get_insert};
use crate::text::str_eq;
use crate::value::{Object, Value, ValueV, entry_get, entry_insert};

verus! {

/// Named values a program starts with, each public or private, in the order
/// they were first set.
pub struct Inputs {
    bindings: Vec<(String, Value, Visibility)>,
}

/// The bindings by name, each with its value and visibility.
pub open spec fn bindings_view(s: Seq<(String, Value, Visibility)>) -> Seq<(Seq<char>, (ValueV, Visibility))> {
    Seq::new(s.len(), |i: int| (s[i].0@, (s[i].1@, s[i].2)))
}

impl View for Inputs {
    type V = Seq<(Seq<char>, (ValueV, Visibility))>;

    closed spec fn view(&self) -> Seq<(Seq<char>, (ValueV, Visibility))> {
        bindings_view(self.bindings@)
    }
}

impl Inputs {
    pub fn new() -> (r: Self)
        ensures
            r@ == Seq::<(Seq<char>, (ValueV, Visibility))>::empty(),
    {
        let r = Inputs { bindings: Vec::new() };
        proof {
            assert(r@ =~= Seq::<(Seq<char>, (ValueV, Visibility))>::empty());
        }
        r
    }

    /// Where the binding named `name` is, or the length.
    fn position(&self, name: &str) -> (r: usize)
        ensures
            r <= self@.len(),
            first_field_from(self@, name@, 0) == (if r < self@.len() { Some(r as int) } else { None::<int> }),
    {
        let mut i: usize = 0;
        while i < self.bindings.len()
            invariant
                i <= self.bindings@.len(),
                self@ == bindings_view(self.bindings@),
                first_field_from(self@, name@, 0) == first_field_from(self@, name@, i as int),
            decreases self.bindings@.len() - i,
        {
            if str_eq(self.bindings[i].0.as_str(), name) {
                return i;
            }
            i = i + 1;
        }
        i
    }

    /// Binds `name` to `value` with `visibility`: in place when it is bound
    /// already, else as the last binding.
    pub(crate) fn set(&mut self, name: &str, value: Value, visibility: Visibility)
        ensures
            final(self)@ == field_insert(old(self)@, name@, (value@, visibility)),
    {
        let ghost before = self.bindings@;
        let i = self.position(name);
        let entry = (name.to_owned(), value, visibility);
        let ghost e = entry;
        if i < self.bindings.len() {
            self.bindings.set(i, entry);
        } else {
            self.bindings.push(entry);
        }
        proof {
            let target = field_insert(bindings_view(before), name@, (e.1@, visibility));
            assert(self@ =~= target);
        }
    }

    /// Binds `name` to `value` with `visibility`: in place when it is bound
    /// already, else as the last binding.
    pub fn insert(self, name: &str, value: Value, visibility: Visibility) -> (r: Self)
        ensures
            r@ == field_insert(self@, name@, (value@, visibility)),
    {
        let mut inputs = self;
        inputs.set(name, value, visibility);
        inputs
    }

    /// The value bound to `name`.
    pub fn get(&self, name: &str) -> (r: Option<&Value>)
        ensures
            match field_get(self@, name@) {
                Some(b) => r matches Some(x) && x@ == b.0,
                None => r is None,
            },
    {
        let i = self.position(name);
        if i < self.bindings.len() {
            Some(&self.bindings[i].1)
        } else {
            None
        }
    }
}

impl Inputs {
    /// Where the binding named `name` is.
    pub(crate) fn position_of(&self, name: &str) -> (r: Option<usize>)
        ensures
            first_field_from(self@, name@, 0) == match r {
                Some(i) => Some(i as int),
                None => None::<int>,
            },
            r matches Some(i) ==> i < self@.len(),
    {
        let i = self.position(name);
        if i < self.bindings.len() {
            Some(i)
        } else {
            None
        }
    }

    /// The visibility of the binding at `i`.
    pub(crate) fn visibility_at(&self, i: usize) -> (r: Visibility)
        requires
            i < self@.len(),
        ensures
            r == self@[i as int].1.1,
    {
        self.bindings[i].2
    }

    /// The bindings, in order.
    pub(crate) fn entries(&self) -> (r: &[(String, Value, Visibility)])
        ensures
            bindings_view(r@) == self@,
    {
        self.bindings.as_slice()
    }

    /// A copy of the bindings.
    pub(crate) fn duplicate(&self) -> (r: Inputs)
        ensures
            r@ == self@,
    {
        let mut out: Vec<(String, Value, Visibility)> = Vec::new();
        let mut i: usize = 0;
        while i < self.bindings.len()
            invariant
                i <= self.bindings@.len(),
                out@.len() == i,
                forall|k: int| 0 <= k < i ==> (#[trigger] out@[k]).0@ == self.bindings@[k].0@
                    && out@[k].1@ == self.bindings@[k].1@ && out@[k].2 == self.bindings@[k].2,
            decreases self.bindings@.len() - i,
        {
            let entry = (self.bindings[i].0.clone(), self.bindings[i].1.duplicate(), self.bindings[i].2);
            out.push(entry);
            i = i + 1;
        }
        let r = Inputs { bindings: out };
        proof {
            assert(r@ =~= self@);
        }
        r
    }
}

/// Binding a name in the inputs makes it read back as the value it was
/// bound to, with the visibility it was bound with.
pub proof fn law_inputs_get_after_insert(m: Seq<(Seq<char>, (ValueV, Visibility))>, name: Seq<char>, v: ValueV, visibility: Visibility)
    ensures
        field_get(field_insert(m, name, (v, visibility)), name) == Some((v, visibility)),
{
    lemma_field_get_insert(m, name, (v, visibility));
}

// ---------------------------------------------------------------------------
// Scopes
// ---------------------------------------------------------------------------

/// A frame of bindings: the run's root, a block inside another frame, or a
/// function call. What every frame of a run sees is kept apart, in
/// `SharedScope`, and handed to the operations that read or change it.
pub struct Scope {
    bindings: Inputs,
    local_names: Vec<String>,
    root: bool,
    function_frame: bool,
}

/// What all frames of a run share: the global bindings (the inputs and
/// what the root assigns) and the values that `extend` adds.
pub struct SharedScope {
    globals: Inputs,
    extensions: Object,
}

pub struct ScopeV {
    pub bindings: Seq<(Seq<char>, (ValueV, Visibility))>,
    pub locals: Seq<Seq<char>>,
    pub root: bool,
    pub function_frame: bool,
}

pub struct SharedV {
    pub globals: Seq<(Seq<char>, (ValueV, Visibility))>,
    pub extensions: Seq<(Seq<char>, ValueV)>,
}

pub open spec fn names_view(s: Seq<String>) -> Seq<Seq<char>> {
    Seq::new(s.len(), |i: int| s[i]@)
}

impl View for Scope {
    type V = ScopeV;

    closed spec fn view(&self) -> ScopeV {
        ScopeV {
            bindings: self.bindings@,
            locals: names_view(self.local_names@),
            root: self.root,
            function_frame: self.function_frame,
        }
    }
}

impl View for SharedScope {
    type V = SharedV;

    closed spec fn view(&self) -> SharedV {
        SharedV { globals: self.globals@, extensions: self.extensions@ }
    }
}

/// `locals` with `name` added, when it is not there yet.
pub open spec fn add_name(locals: Seq<Seq<char>>, name: Seq<char>) -> Seq<Seq<char>> {
    if locals.contains(name) {
        locals
    } else {
        locals.push(name)
    }
}

/// Where an assignment goes: the root binds globals; a function call
/// rebinds a global it has no binding of its own for, keeping the global's
/// visibility; any other frame binds locally.
pub open spec fn assigned(s: ScopeV, g: SharedV, name: Seq<char>, v: ValueV, visibility: Visibility) -> (ScopeV, SharedV) {
    if s.root {
        (s, SharedV { globals: field_insert(g.globals, name, (v, visibility)), ..g })
    } else if s.function_frame && field_get(s.bindings, name) is None && field_get(g.globals, name) is Some {
        (s, SharedV { globals: field_insert(g.globals, name, (v, field_get(g.globals, name)->Some_0.1)), ..g })
    } else {
        (ScopeV { bindings: field_insert(s.bindings, name, (v, visibility)), locals: add_name(s.locals, name), ..s }, g)
    }
}

/// What a name reads as: the frame's binding, else the global one, else an
/// extension.
pub open spec fn looked_up(s: ScopeV, g: SharedV, name: Seq<char>) -> Option<ValueV> {
    match field_get(s.bindings, name) {
        Some(b) => Some(b.0),
        None => match field_get(g.globals, name) {
            Some(b) => Some(b.0),
            None => entry_get(g.extensions, name),
        },
    }
}

/// The frame and shared state after `extend` with the fields of an
/// object: each is bound publicly in the frame and kept as an extension.
pub open spec fn extended(s: ScopeV, g: SharedV, fields: Seq<(Seq<char>, ValueV)>) -> (ScopeV, SharedV)
    decreases fields.len(),
{
    if fields.len() == 0 {
        (s, g)
    } else {
        let (s1, g1) = extended(s, g, fields.drop_last());
        let (name, v) = fields.last();
        (
            ScopeV { bindings: field_insert(s1.bindings, name, (v, Visibility::Public)), locals: add_name(s1.locals, name), ..s1 },
            SharedV { extensions: entry_insert(g1.extensions, name, v), ..g1 },
        )
    }
}

/// `out` with the bindings of `m` set over it, those that are public and,
/// when `only_locals`, named in `locals`.
pub open spec fn public_into(
    out: Seq<(Seq<char>, ValueV)>,
    m: Seq<(Seq<char>, (ValueV, Visibility))>,
    only_locals: bool,
    locals: Seq<Seq<char>>,
) -> Seq<(Seq<char>, ValueV)>
    decreases m.len(),
{
    if m.len() == 0 {
        out
    } else {
        let before = public_into(out, m.drop_last(), only_locals, locals);
        let (name, b) = m.last();
        if b.1 is Public && (!only_locals || locals.contains(name)) {
            entry_insert(before, name, b.0)
        } else {
            before
        }
    }
}

/// Without `only_locals`, the names in `locals` do not matter.
proof fn lemma_public_into_any_locals(
    out: Seq<(Seq<char>, ValueV)>,
    m: Seq<(Seq<char>, (ValueV, Visibility))>,
    a: Seq<Seq<char>>,
    b: Seq<Seq<char>>,
)
    ensures
        public_into(out, m, false, a) == public_into(out, m, false, b),
    decreases m.len(),
{
    if m.len() > 0 {
        lemma_public_into_any_locals(out, m.drop_last(), a, b);
    }
}

/// `out` with the fields of `m` set over it.
pub open spec fn all_into(out: Seq<(Seq<char>, ValueV)>, m: Seq<(Seq<char>, ValueV)>) -> Seq<(Seq<char>, ValueV)>
    decreases m.len(),
{
    if m.len() == 0 {
        out
    } else {
        entry_insert(all_into(out, m.drop_last()), m.last().0, m.last().1)
    }
}

/// What a frame outputs: for the root, the public globals; then the public
/// bindings the frame made itself; then every extension.
pub open spec fn output_of(s: ScopeV, g: SharedV) -> Seq<(Seq<char>, ValueV)> {
    let globals = if s.root { public_into(Seq::empty(), g.globals, false, Seq::empty()) } else { Seq::empty() };
    all_into(public_into(globals, s.bindings, true, s.locals), g.extensions)
}

fn contains_name(names: &Vec<String>, name: &str) -> (r: bool)
    ensures
        r == names_view(names@).contains(name@),
{
    let mut i: usize = 0;
    while i < names.len()
        invariant
            i <= names@.len(),
            forall|k: int| 0 <= k < i ==> names@[k]@ != name@,
        decreases names@.len() - i,
    {
        if str_eq(names[i].as_str(), name) {
            proof {
                assert(names_view(names@)[i as int] == name@);
            }
            return true;
        }
        i = i + 1;
    }
    proof {
        if names_view(names@).contains(name@) {
            let k = choose|k: int| 0 <= k < names_view(names@).len() && names_view(names@)[k] == name@;
            assert(names@[k]@ == name@);
        }
    }
    false
}

fn add_local(names: &mut Vec<String>, name: &str)
    ensures
        names_view(final(names)@) == add_name(names_view(old(names)@), name@),
{
    if !contains_name(names, name) {
        let ghost before = names@;
        names.push(name.to_owned());
        proof {
            assert(names_view(names@) =~= names_view(before).push(name@));
        }
    }
}

impl Scope {
    /// The root frame of a run over `inputs`, and the state it shares.
    pub fn root(inputs: Inputs) -> (r: (Scope, SharedScope))
        ensures
            r.0@ == (ScopeV { bindings: Seq::empty(), locals: Seq::empty(), root: true, function_frame: false }),
            r.1@ == (SharedV { globals: inputs@, extensions: Seq::empty() }),
    {
        let scope = Scope { bindings: Inputs::new(), local_names: Vec::new(), root: true, function_frame: false };
        proof {
            assert(names_view(scope.local_names@) =~= Seq::<Seq<char>>::empty());
        }
        (scope, SharedScope { globals: inputs, extensions: Object::new() })
    }

    /// A block's frame inside this one: it starts with this frame's
    /// bindings and has made none of its own.
    pub fn child(&self) -> (r: Scope)
        ensures
            r@ == (ScopeV { bindings: self@.bindings, locals: Seq::empty(), root: false, function_frame: false }),
    {
        let scope = Scope { bindings: self.bindings.duplicate(), local_names: Vec::new(), root: false, function_frame: false };
        proof {
            assert(names_view(scope.local_names@) =~= Seq::<Seq<char>>::empty());
        }
        scope
    }

    /// A function call's frame: it starts with no bindings.
    pub fn function(&self) -> (r: Scope)
        ensures
            r@ == (ScopeV { bindings: Seq::empty(), locals: Seq::empty(), root: false, function_frame: true }),
    {
        let scope = Scope { bindings: Inputs::new(), local_names: Vec::new(), root: false, function_frame: true };
        proof {
            assert(names_view(scope.local_names@) =~= Seq::<Seq<char>>::empty());
        }
        scope
    }

    /// Assigns `value` to `name` (see `assigned`).
    pub fn assign(&mut self, shared: &mut SharedScope, name: &str, value: Value, visibility: Visibility)
        ensures
            (final(self)@, final(shared)@) == assigned(old(self)@, old(shared)@, name@, value@, visibility),
    {
        if self.root {
            shared.globals.set(name, value, visibility);
            return;
        }
        if self.function_frame && self.bindings.get(name).is_none() {
            let global = match shared.globals.position_of(name) {
                Some(i) => Some(shared.globals.visibility_at(i)),
                None => None,
            };
            match global {
                Some(kept) => {
                    shared.globals.set(name, value, kept);
                    return;
                },
                None => {},
            }
        }
        self.bindings.set(name, value, visibility);
        add_local(&mut self.local_names, name);
    }

    /// The value `name` reads as (see `looked_up`).
    pub fn get(&self, shared: &SharedScope, name: &str) -> (r: Option<Value>)
        ensures
            match looked_up(self@, shared@, name@) {
                Some(v) => r matches Some(x) && x@ == v,
                None => r is None,
            },
    {
        match self.bindings.get(name) {
            Some(v) => Some(v.duplicate()),
            None => match shared.globals.get(name) {
                Some(v) => Some(v.duplicate()),
                None => match shared.extensions.get(name) {
                    Some(v) => Some(v.duplicate()),
                    None => None,
                },
            },
        }
    }

    /// Binds the fields of `object` publicly in this frame and keeps them as
    /// extensions (see `extended`).
    pub fn extend(&mut self, shared: &mut SharedScope, object: &Object)
        ensures
            (final(self)@, final(shared)@) == extended(old(self)@, old(shared)@, object@),
    {
        let entries = object.iter();
        let ghost fields = object@;
        let ghost s0 = self@;
        let ghost g0 = shared@;
        let mut i: usize = 0;
        proof {
            crate::value::lemma_entries_len(entries@);
            assert(fields.take(0) =~= Seq::<(Seq<char>, ValueV)>::empty());
        }
        while i < entries.len()
            invariant
                crate::value::entries_view(entries@) == fields,
                fields.len() == entries@.len(),
                i <= entries@.len(),
                (self@, shared@) == extended(s0, g0, fields.take(i as int)),
            decreases entries@.len() - i,
        {
            proof {
                crate::value::lemma_entries_at(entries@, i as int);
                assert(fields.take(i + 1).drop_last() =~= fields.take(i as int));
                assert(fields.take(i + 1).last() == fields[i as int]);
            }
            let name = entries[i].0.as_str();
            self.bindings.set(name, entries[i].1.duplicate(), Visibility::Public);
            add_local(&mut self.local_names, name);
            shared.extensions.insert(name, entries[i].1.duplicate());
            i = i + 1;
        }
        proof {
            assert(fields.take(i as int) =~= fields);
        }
    }

    /// What this frame outputs (see `output_of`).
    pub fn output(&self, shared: &SharedScope) -> (r: Object)
        ensures
            r@ == output_of(self@, shared@),
    {
        let mut out = Object::new();
        if self.root {
            put_public(&mut out, shared.globals.entries(), false, &self.local_names);
            proof {
                lemma_public_into_any_locals(Seq::empty(), shared@.globals, names_view(self.local_names@), Seq::empty());
            }
        }
        put_public(&mut out, self.bindings.entries(), true, &self.local_names);
        let entries = shared.extensions.iter();
        let ghost fields = shared@.extensions;
        let ghost start = out@;
        let mut i: usize = 0;
        proof {
            crate::value::lemma_entries_len(entries@);
            assert(fields.take(0) =~= Seq::<(Seq<char>, ValueV)>::empty());
        }
        while i < entries.len()
            invariant
                crate::value::entries_view(entries@) == fields,
                fields.len() == entries@.len(),
                i <= entries@.len(),
                out@ == all_into(start, fields.take(i as int)),
            decreases entries@.len() - i,
        {
            proof {
                crate::value::lemma_entries_at(entries@, i as int);
                assert(fields.take(i + 1).drop_last() =~= fields.take(i as int));
                assert(fields.take(i + 1).last() == fields[i as int]);
            }
            out.insert(entries[i].0.as_str(), entries[i].1.duplicate());
            i = i + 1;
        }
        proof {
            assert(fields.take(i as int) =~= fields);
        }
        out
    }
}

/// Sets the public bindings of `m` (those named in `locals`, when
/// `only_locals`) in `out`.
fn put_public(out: &mut Object, m: &[(String, Value, Visibility)], only_locals: bool, locals: &Vec<String>)
    ensures
        final(out)@ == public_into(old(out)@, bindings_view(m@), only_locals, names_view(locals@)),
{
    let ghost mv = bindings_view(m@);
    let ghost start = out@;
    let mut i: usize = 0;
    proof {
        assert(mv.take(0) =~= Seq::<(Seq<char>, (ValueV, Visibility))>::empty());
    }
    while i < m.len()
        invariant
            mv == bindings_view(m@),
            i <= m@.len(),
            out@ == public_into(start, mv.take(i as int), only_locals, names_view(locals@)),
        decreases m@.len() - i,
    {
        proof {
            assert(mv.take(i + 1).drop_last() =~= mv.take(i as int));
            assert(mv.take(i + 1).last() == mv[i as int]);
        }
        let public = match m[i].2 {
            Visibility::Public => true,
            Visibility::Private => false,
        };
        if public && (!only_locals || contains_name(locals, m[i].0.as_str())) {
            out.insert(m[i].0.as_str(), m[i].1.duplicate());
        }
        i = i + 1;
    }
    proof {
        assert(mv.take(i as int) =~= mv);
    }
}

/// After an assignment, the name reads as the value assigned, unless the
/// frame is the root and binds the name itself (as `extend` does): the root
/// assigns globals, and its own binding comes first.
pub proof fn law_scope_reads_what_was_assigned(s: ScopeV, g: SharedV, name: Seq<char>, v: ValueV, visibility: Visibility)
    requires
        !(s.root && field_get(s.bindings, name) is Some),
    ensures
        looked_up(assigned(s, g, name, v, visibility).0, assigned(s, g, name, v, visibility).1, name) == Some(v),
{
    lemma_field_get_insert(g.globals, name, (v, visibility));
    lemma_field_get_insert(s.bindings, name, (v, visibility));
    if field_get(g.globals, name) is Some {
        lemma_field_get_insert(g.globals, name, (v, field_get(g.globals, name)->Some_0.1));
    }
}

} // verus!
