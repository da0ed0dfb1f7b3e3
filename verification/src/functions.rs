//! The functions built into the extractor language.

use vstd::prelude::*;
use crate::text::str_eq;

verus! {

/// How a built-in function is called: `Core` ones are evaluated by the
/// engine itself, `Lambda` ones take a function argument, `Value` ones take
/// plain values.
#[derive(Clone, Copy, Debug, PartialEq, Eq, Structural)]
pub enum BuiltinFunctionKind {
    Core,
    Lambda,
    Value,
}

#[derive(Clone, Copy, Debug, PartialEq, Eq)]
pub struct BuiltinFunction {
    name: &'static str,
    kind: BuiltinFunctionKind,
}

/// The built-in functions, in the order the language lists them.
pub open spec fn builtin_entries() -> Seq<(Seq<char>, BuiltinFunctionKind)> {
    seq![
        ("fetch"@, BuiltinFunctionKind::Core),
        ("extend"@, BuiltinFunctionKind::Core),
        ("map"@, BuiltinFunctionKind::Lambda),
        ("filter"@, BuiltinFunctionKind::Lambda),
        ("any"@, BuiltinFunctionKind::Lambda),
        ("all"@, BuiltinFunctionKind::Lambda),
        ("find"@, BuiltinFunctionKind::Lambda),
        ("sort_by_key"@, BuiltinFunctionKind::Lambda),
        ("sort_by"@, BuiltinFunctionKind::Lambda),
        ("assert"@, BuiltinFunctionKind::Lambda),
        ("warn"@, BuiltinFunctionKind::Lambda),
        ("css"@, BuiltinFunctionKind::Value),
        ("css@"@, BuiltinFunctionKind::Value),
        ("flatten"@, BuiltinFunctionKind::Value),
        ("text"@, BuiltinFunctionKind::Value),
        ("keys"@, BuiltinFunctionKind::Value),
        ("log"@, BuiltinFunctionKind::Value),
        ("trim"@, BuiltinFunctionKind::Value),
        ("replace"@, BuiltinFunctionKind::Value),
        ("urlencode"@, BuiltinFunctionKind::Value),
        ("contains"@, BuiltinFunctionKind::Value),
        ("starts_with"@, BuiltinFunctionKind::Value),
        ("inner_html"@, BuiltinFunctionKind::Value),
        ("html_text"@, BuiltinFunctionKind::Value),
        ("href"@, BuiltinFunctionKind::Value),
        ("len"@, BuiltinFunctionKind::Value),
        ("range"@, BuiltinFunctionKind::Value),
        ("zip"@, BuiltinFunctionKind::Value),
        ("first"@, BuiltinFunctionKind::Value),
        ("last"@, BuiltinFunctionKind::Value),
        ("take"@, BuiltinFunctionKind::Value),
        ("unique"@, BuiltinFunctionKind::Value),
        ("values"@, BuiltinFunctionKind::Value),
        ("has"@, BuiltinFunctionKind::Value),
        ("src"@, BuiltinFunctionKind::Value),
        ("unwrap_or"@, BuiltinFunctionKind::Value),
        ("attr"@, BuiltinFunctionKind::Value),
        ("html"@, BuiltinFunctionKind::Value),
        ("regex"@, BuiltinFunctionKind::Value),
        ("regex@"@, BuiltinFunctionKind::Value),
        ("sorted"@, BuiltinFunctionKind::Value),
        ("status"@, BuiltinFunctionKind::Value),
        ("json"@, BuiltinFunctionKind::Value),
        ("ensure_suffix"@, BuiltinFunctionKind::Value),
        ("join"@, BuiltinFunctionKind::Value),
        ("nullcheck"@, BuiltinFunctionKind::Value),
    ]
}

/// The first entry at or after `i` named `name`.
pub open spec fn lookup_from(name: Seq<char>, i: int) -> Option<BuiltinFunctionKind>
    decreases builtin_entries().len() - i,
{
    if i < 0 || i >= builtin_entries().len() {
        None
    } else if builtin_entries()[i].0 == name {
        Some(builtin_entries()[i].1)
    } else {
        lookup_from(name, i + 1)
    }
}

/// The kind of the built-in function called `name`, if there is one.
pub open spec fn builtin_kind(name: Seq<char>) -> Option<BuiltinFunctionKind> {
    lookup_from(name, 0)
}

impl View for BuiltinFunction {
    type V = (Seq<char>, BuiltinFunctionKind);

    closed spec fn view(&self) -> (Seq<char>, BuiltinFunctionKind) {
        (self.name@, self.kind)
    }
}

fn builtin(name: &'static str, kind: BuiltinFunctionKind) -> (r: BuiltinFunction)
    ensures
        r@ == (name@, kind),
{
    BuiltinFunction { name, kind }
}

/// All built-in functions, in the order the language lists them.
pub fn builtin_functions() -> (r: Vec<BuiltinFunction>)
    ensures
        r@.len() == builtin_entries().len(),
        forall|i: int| 0 <= i < r@.len() ==> #[trigger] r@[i]@ == builtin_entries()[i],
{
    let v = vec![
        builtin("fetch", BuiltinFunctionKind::Core),
        builtin("extend", BuiltinFunctionKind::Core),
        builtin("map", BuiltinFunctionKind::Lambda),
        builtin("filter", BuiltinFunctionKind::Lambda),
        builtin("any", BuiltinFunctionKind::Lambda),
        builtin("all", BuiltinFunctionKind::Lambda),
        builtin("find", BuiltinFunctionKind::Lambda),
        builtin("sort_by_key", BuiltinFunctionKind::Lambda),
        builtin("sort_by", BuiltinFunctionKind::Lambda),
        builtin("assert", BuiltinFunctionKind::Lambda),
        builtin("warn", BuiltinFunctionKind::Lambda),
        builtin("css", BuiltinFunctionKind::Value),
        builtin("css@", BuiltinFunctionKind::Value),
        builtin("flatten", BuiltinFunctionKind::Value),
        builtin("text", BuiltinFunctionKind::Value),
        builtin("keys", BuiltinFunctionKind::Value),
        builtin("log", BuiltinFunctionKind::Value),
        builtin("trim", BuiltinFunctionKind::Value),
        builtin("replace", BuiltinFunctionKind::Value),
        builtin("urlencode", BuiltinFunctionKind::Value),
        builtin("contains", BuiltinFunctionKind::Value),
        builtin("starts_with", BuiltinFunctionKind::Value),
        builtin("inner_html", BuiltinFunctionKind::Value),
        builtin("html_text", BuiltinFunctionKind::Value),
        builtin("href", BuiltinFunctionKind::Value),
        builtin("len", BuiltinFunctionKind::Value),
        builtin("range", BuiltinFunctionKind::Value),
        builtin("zip", BuiltinFunctionKind::Value),
        builtin("first", BuiltinFunctionKind::Value),
        builtin("last", BuiltinFunctionKind::Value),
        builtin("take", BuiltinFunctionKind::Value),
        builtin("unique", BuiltinFunctionKind::Value),
        builtin("values", BuiltinFunctionKind::Value),
        builtin("has", BuiltinFunctionKind::Value),
        builtin("src", BuiltinFunctionKind::Value),
        builtin("unwrap_or", BuiltinFunctionKind::Value),
        builtin("attr", BuiltinFunctionKind::Value),
        builtin("html", BuiltinFunctionKind::Value),
        builtin("regex", BuiltinFunctionKind::Value),
        builtin("regex@", BuiltinFunctionKind::Value),
        builtin("sorted", BuiltinFunctionKind::Value),
        builtin("status", BuiltinFunctionKind::Value),
        builtin("json", BuiltinFunctionKind::Value),
        builtin("ensure_suffix", BuiltinFunctionKind::Value),
        builtin("join", BuiltinFunctionKind::Value),
        builtin("nullcheck", BuiltinFunctionKind::Value),
    ];
    v
}

/// The built-in function called `name`: the first entry of
/// `builtin_functions()` with that name.
pub fn builtin_function(name: &str) -> (r: Option<BuiltinFunction>)
    ensures
        match builtin_kind(name@) {
            Some(k) => r matches Some(f) && f@ == (name@, k),
            None => r is None,
        },
{
    let table = builtin_functions();
    let mut i: usize = 0;
    while i < table.len()
        invariant
            table@.len() == builtin_entries().len(),
            forall|j: int| 0 <= j < table@.len() ==> #[trigger] table@[j]@ == builtin_entries()[j],
            i <= table@.len(),
            builtin_kind(name@) == lookup_from(name@, i as int),
        decreases table@.len() - i,
    {
        let f = table[i];
        proof {
            assert(table@[i as int]@ == builtin_entries()[i as int]);
        }
        if str_eq(f.name, name) {
            return Some(f);
        }
        i = i + 1;
    }
    None
}

impl BuiltinFunction {
    pub fn name(self) -> (r: &'static str)
        ensures
            r@ == self@.0,
    {
        self.name
    }

    pub fn kind(self) -> (r: BuiltinFunctionKind)
        ensures
            r == self@.1,
    {
        self.kind
    }
}


proof fn lemma_lookup_from(name: Seq<char>, i: int)
    requires
        0 <= i <= builtin_entries().len(),
    ensures
        lookup_from(name, i) is Some <==> exists|j: int| i <= j < builtin_entries().len() && builtin_entries()[j].0 == name,
        lookup_from(name, i) matches Some(k) ==> exists|j: int| i <= j < builtin_entries().len() && builtin_entries()[j] == (name, k),
    decreases builtin_entries().len() - i,
{
    if i < builtin_entries().len() {
        lemma_lookup_from(name, i + 1);
    }
}

/// The lookup and the table agree: `builtin_function` finds a name exactly
/// when `builtin_functions` lists it, and with a kind listed for it there.
pub proof fn law_builtin_lookup_matches_table(name: Seq<char>)
    ensures
        builtin_kind(name) is Some <==> exists|j: int| 0 <= j < builtin_entries().len() && builtin_entries()[j].0 == name,
        builtin_kind(name) matches Some(k) ==> exists|j: int| 0 <= j < builtin_entries().len() && builtin_entries()[j] == (name, k),
{
    lemma_lookup_from(name, 0);
}

/// `fetch` and `extend` are the core builtins; `map`, `filter`, `any`,
/// `all`, `find`, `sort_by_key`, `sort_by`, `assert` and `warn` take a
/// lambda; every other name in the table takes values; any other name is
/// no builtin.
#[verifier::rlimit(100)]
pub proof fn law_builtin_kinds(n: Seq<char>)
    ensures
        builtin_kind(n) == Some(BuiltinFunctionKind::Core) <==> (n == "fetch"@ || n == "extend"@),
        builtin_kind(n) == Some(BuiltinFunctionKind::Lambda) <==> (n == "map"@ || n == "filter"@ || n == "any"@ || n == "all"@ || n == "find"@ || n == "sort_by_key"@ || n == "sort_by"@ || n == "assert"@ || n == "warn"@),
        builtin_kind(n) is Some <==> (exists|j: int| 0 <= j < builtin_entries().len() && #[trigger] builtin_entries()[j].0 == n),
{
    reveal_with_fuel(lookup_from, 47);
    reveal_strlit("fetch");
    reveal_strlit("extend");
    reveal_strlit("map");
    reveal_strlit("filter");
    reveal_strlit("any");
    reveal_strlit("all");
    reveal_strlit("find");
    reveal_strlit("sort_by_key");
    reveal_strlit("sort_by");
    reveal_strlit("assert");
    reveal_strlit("warn");
    reveal_strlit("css");
    reveal_strlit("css@");
    reveal_strlit("flatten");
    reveal_strlit("text");
    reveal_strlit("keys");
    reveal_strlit("log");
    reveal_strlit("trim");
    reveal_strlit("replace");
    reveal_strlit("urlencode");
    reveal_strlit("contains");
    reveal_strlit("starts_with");
    reveal_strlit("inner_html");
    reveal_strlit("html_text");
    reveal_strlit("href");
    reveal_strlit("len");
    reveal_strlit("range");
    reveal_strlit("zip");
    reveal_strlit("first");
    reveal_strlit("last");
    reveal_strlit("take");
    reveal_strlit("unique");
    reveal_strlit("values");
    reveal_strlit("has");
    reveal_strlit("src");
    reveal_strlit("unwrap_or");
    reveal_strlit("attr");
    reveal_strlit("html");
    reveal_strlit("regex");
    reveal_strlit("regex@");
    reveal_strlit("sorted");
    reveal_strlit("status");
    reveal_strlit("json");
    reveal_strlit("ensure_suffix");
    reveal_strlit("join");
    reveal_strlit("nullcheck");
    assert("fetch"@.len() == 5 && "extend"@.len() == 6 && "map"@.len() == 3 && "filter"@.len() == 6);
    assert("extend"@[0] != "filter"@[0]);
    assert(lookup_from("map"@, 2) == Some(BuiltinFunctionKind::Lambda));
    assert(lookup_from("map"@, 0) == Some(BuiltinFunctionKind::Lambda));
    assert(lookup_from("filter"@, 3) == Some(BuiltinFunctionKind::Lambda));
    assert(lookup_from("filter"@, 0) == Some(BuiltinFunctionKind::Lambda));
    assert(lookup_from("any"@, 0) == Some(BuiltinFunctionKind::Lambda));
    assert(lookup_from("all"@, 0) == Some(BuiltinFunctionKind::Lambda));
    assert(lookup_from("find"@, 0) == Some(BuiltinFunctionKind::Lambda));
    assert(lookup_from("sort_by_key"@, 0) == Some(BuiltinFunctionKind::Lambda));
    assert(lookup_from("sort_by"@, 0) == Some(BuiltinFunctionKind::Lambda));
    assert(lookup_from("assert"@, 0) == Some(BuiltinFunctionKind::Lambda));
    assert(lookup_from("warn"@, 0) == Some(BuiltinFunctionKind::Lambda));
    if builtin_kind(n) is Some {
        lemma_lookup_found(n, 0);
    }
    if exists|j: int| 0 <= j < builtin_entries().len() && #[trigger] builtin_entries()[j].0 == n {
        let j = choose|j: int| 0 <= j < builtin_entries().len() && #[trigger] builtin_entries()[j].0 == n;
        lemma_lookup_reaches(n, 0, j);
    }
}

proof fn lemma_lookup_found(n: Seq<char>, i: int)
    requires
        0 <= i,
        lookup_from(n, i) is Some,
    ensures
        exists|j: int| i <= j < builtin_entries().len() && #[trigger] builtin_entries()[j].0 == n,
    decreases builtin_entries().len() - i,
{
    if builtin_entries()[i].0 != n {
        lemma_lookup_found(n, i + 1);
    }
}

proof fn lemma_lookup_reaches(n: Seq<char>, i: int, j: int)
    requires
        0 <= i <= j < builtin_entries().len(),
        builtin_entries()[j].0 == n,
    ensures
        lookup_from(n, i) is Some,
    decreases j - i,
{
    if builtin_entries()[i].0 != n {
        lemma_lookup_reaches(n, i + 1, j);
    }
}

} // verus!
