//! The inputs a command line hands a program: variables given as one JSON
//! object and as `NAME=VALUE` assignments, and the document read from
//! standard input.

use vstd::prelude::*;
use crate::text::{chars_of, str_eq, string_from_range, string_push_str};
use crate::ast::Visibility;
use crate::runtime::HtmlDocument;
use crate::scope::Inputs;
use crate::value::{
    Json, JsonV, Value, ValueV, jfields_view, lemma_jfields_index, lemma_jfields_len,
    lemma_jfields_push, lemma_document_view, value_from_json, value_of_json, json_parse, json_parse_of,
};

verus! {

/// What a command line finds on standard input.
#[derive(Debug, PartialEq)]
pub enum StdinInput {
    Terminal,
    Redirected(String),
}

/// A variable that cannot be read, with the message shown to the user.
#[derive(Debug, PartialEq)]
pub struct InputError(pub String);

impl InputError {
    pub fn message(&self) -> (r: &str)
        ensures
            r@ == self.0@,
    {
        self.0.as_str()
    }
}

// ---------------------------------------------------------------------------
// Fields in order
// ---------------------------------------------------------------------------

/// The first position at or after `i` where `s` holds `c`.
pub open spec fn first_char_from(s: Seq<char>, c: char, i: int) -> Option<int>
    decreases s.len() - i,
{
    if i < 0 || i >= s.len() {
        None
    } else if s[i] == c {
        Some(i)
    } else {
        first_char_from(s, c, i + 1)
    }
}

/// The first position at or after `i` of a field named `name`.
pub open spec fn first_field_from<V>(m: Seq<(Seq<char>, V)>, name: Seq<char>, i: int) -> Option<int>
    decreases m.len() - i,
{
    if i < 0 || i >= m.len() {
        None
    } else if m[i].0 == name {
        Some(i)
    } else {
        first_field_from(m, name, i + 1)
    }
}

/// `m` with `name` set to `v`: in place when named already, else last.
pub open spec fn field_insert<V>(m: Seq<(Seq<char>, V)>, name: Seq<char>, v: V) -> Seq<(Seq<char>, V)> {
    match first_field_from(m, name, 0) {
        Some(i) => m.update(i, (name, v)),
        None => m.push((name, v)),
    }
}

/// The value of the first field named `name`.
pub open spec fn field_get<V>(m: Seq<(Seq<char>, V)>, name: Seq<char>) -> Option<V> {
    match first_field_from(m, name, 0) {
        Some(i) => Some(m[i].1),
        None => None,
    }
}

/// Where `c` first occurs in `chars`, or the length.
fn find_char(chars: &Vec<char>, c: char) -> (r: usize)
    ensures
        r <= chars@.len(),
        first_char_from(chars@, c, 0) == (if r < chars@.len() { Some(r as int) } else { None::<int> }),
{
    let mut i: usize = 0;
    while i < chars.len()
        invariant
            i <= chars@.len(),
            first_char_from(chars@, c, 0) == first_char_from(chars@, c, i as int),
        decreases chars@.len() - i,
    {
        if chars[i] == c {
            return i;
        }
        i = i + 1;
    }
    i
}

/// Where the first field named `name` is, or the length.
fn field_position(fields: &Vec<(String, Json)>, name: &str) -> (r: usize)
    ensures
        r <= fields@.len(),
        first_field_from(jfields_view(fields@), name@, 0) == (if r < fields@.len() { Some(r as int) } else { None::<int> }),
{
    let ghost fv = jfields_view(fields@);
    proof {
        lemma_jfields_len(fields@);
    }
    let mut i: usize = 0;
    while i < fields.len()
        invariant
            fv == jfields_view(fields@),
            fv.len() == fields@.len(),
            i <= fields@.len(),
            first_field_from(fv, name@, 0) == first_field_from(fv, name@, i as int),
        decreases fields@.len() - i,
    {
        proof {
            lemma_jfields_index(fields@, i as int);
        }
        if str_eq(fields[i].0.as_str(), name) {
            return i;
        }
        i = i + 1;
    }
    i
}

/// Sets `name` to `value` in `fields` (see `field_insert`).
fn insert_field(fields: &mut Vec<(String, Json)>, name: String, value: Json)
    ensures
        jfields_view(final(fields)@) == field_insert(jfields_view(old(fields)@), name@, value@),
{
    let ghost before = fields@;
    let ghost fv = jfields_view(before);
    proof {
        lemma_jfields_len(before);
    }
    let i = field_position(fields, name.as_str());
    let entry = (name, value);
    let ghost e = entry;
    if i < fields.len() {
        fields.set(i, entry);
        proof {
            let after = fields@;
            lemma_jfields_len(after);
            assert forall|j: int| 0 <= j < after.len() implies jfields_view(after)[j] == fv.update(i as int, (e.0@, e.1@))[j] by {
                lemma_jfields_index(after, j);
                lemma_jfields_index(before, j);
            }
            assert(jfields_view(after) =~= fv.update(i as int, (e.0@, e.1@)));
        }
    } else {
        proof {
            lemma_jfields_push(before, e);
        }
        fields.push(entry);
    }
}

// ---------------------------------------------------------------------------
// Assignments and the variables they make
// ---------------------------------------------------------------------------

/// The message for an assignment that cannot be read.
pub open spec fn invalid_variable(assignment: Seq<char>, reason: Seq<char>) -> Seq<char> {
    "invalid --variable `"@ + assignment + reason
}

/// What `NAME=VALUE` sets: the name before the first `=`, and the value
/// after it read as JSON, or as the string itself where it is not JSON.
pub open spec fn assignment_of(a: Seq<char>) -> Result<(Seq<char>, JsonV), Seq<char>> {
    match first_char_from(a, '=', 0) {
        None => Err(invalid_variable(a, "`: expected NAME=VALUE"@)),
        Some(i) => if i == 0 {
            Err(invalid_variable(a, "`: NAME must not be empty"@))
        } else {
            let raw = a.subrange(i + 1, a.len() as int);
            Ok((a.subrange(0, i), match json_parse_of(raw) {
                Ok(j) => j,
                Err(_) => JsonV::Str(raw),
            }))
        },
    }
}

fn invalid_variable_error(assignment: &str, reason: &str) -> (r: InputError)
    ensures
        r.0@ == invalid_variable(assignment@, reason@),
{
    let mut message = "invalid --variable `".to_owned();
    string_push_str(&mut message, assignment);
    string_push_str(&mut message, reason);
    InputError(message)
}

/// Reads one `NAME=VALUE` assignment (see `assignment_of`).
pub fn parse_assignment(assignment: &str) -> (r: Result<(String, Json), InputError>)
    ensures
        match assignment_of(assignment@) {
            Ok((name, value)) => r matches Ok(x) && x.0@ == name && x.1@ == value,
            Err(e) => r matches Err(x) && x.0@ == e,
        },
{
    let chars = chars_of(assignment);
    let i = find_char(&chars, '=');
    if i == chars.len() {
        return Err(invalid_variable_error(assignment, "`: expected NAME=VALUE"));
    }
    if i == 0 {
        return Err(invalid_variable_error(assignment, "`: NAME must not be empty"));
    }
    let name = string_from_range(&chars, 0, i);
    let raw = string_from_range(&chars, i + 1, chars.len());
    let value = match json_parse(raw.as_str()) {
        Ok(j) => j,
        Err(_) => Json::String(raw),
    };
    Ok((name, value))
}

/// The text of an optional string slice.
pub open spec fn opt_str(o: Option<&str>) -> Option<Seq<char>> {
    match o {
        Some(s) => Some(s@),
        None => None,
    }
}

/// The texts of a sequence of strings.
pub open spec fn texts(s: Seq<String>) -> Seq<Seq<char>> {
    Seq::new(s.len(), |i: int| s[i]@)
}

/// The variables of the JSON object given as `--variables`, if any.
pub open spec fn base_variables(variables: Option<Seq<char>>) -> Result<Seq<(Seq<char>, JsonV)>, Seq<char>> {
    match variables {
        None => Ok(seq![]),
        Some(raw) => match json_parse_of(raw) {
            Ok(JsonV::Object(fields)) => Ok(fields),
            Ok(_) => Err("invalid --variables: expected a JSON object"@),
            Err(e) => Err("invalid --variables JSON: "@ + e.0),
        },
    }
}

/// The variables of `--variables` with the assignments set over them in
/// order; the first assignment that cannot be read is the error.
pub open spec fn merged_variables(variables: Option<Seq<char>>, assignments: Seq<Seq<char>>) -> Result<Seq<(Seq<char>, JsonV)>, Seq<char>>
    decreases assignments.len(),
{
    if assignments.len() == 0 {
        base_variables(variables)
    } else {
        match merged_variables(variables, assignments.drop_last()) {
            Err(e) => Err(e),
            Ok(m) => match assignment_of(assignments.last()) {
                Err(e) => Err(e),
                Ok((name, value)) => Ok(field_insert(m, name, value)),
            },
        }
    }
}

fn variables_object(variables: Option<&str>) -> (r: Result<Vec<(String, Json)>, InputError>)
    ensures
        match base_variables(opt_str(variables)) {
            Ok(m) => r matches Ok(x) && jfields_view(x@) == m,
            Err(e) => r matches Err(x) && x.0@ == e,
        },
{
    match variables {
        None => {
            let v: Vec<(String, Json)> = Vec::new();
            proof {
                lemma_jfields_len(v@);
                assert(jfields_view(v@) =~= Seq::<(Seq<char>, JsonV)>::empty());
            }
            Ok(v)
        },
        Some(raw) => match json_parse(raw) {
            Ok(Json::Object(values)) => Ok(values),
            Ok(_) => Err(InputError("invalid --variables: expected a JSON object".to_owned())),
            Err(error) => {
                let mut message = "invalid --variables JSON: ".to_owned();
                string_push_str(&mut message, error.0.as_str());
                Err(InputError(message))
            },
        },
    }
}

/// The variables of `--variables` with each `NAME=VALUE` assignment set
/// over them in order (see `merged_variables`).
pub fn merge_variables(variables: Option<&str>, assignments: &[String]) -> (r: Result<Vec<(String, Json)>, InputError>)
    ensures
        match merged_variables(opt_str(variables), texts(assignments@)) {
            Ok(m) => r matches Ok(x) && jfields_view(x@) == m,
            Err(e) => r matches Err(x) && x.0@ == e,
        },
{
    let ghost all = texts(assignments@);
    let mut merged = match variables_object(variables) {
        Ok(m) => m,
        Err(e) => {
            proof {
                assert(all.take(0) =~= Seq::<Seq<char>>::empty());
                lemma_merged_error(opt_str(variables), all, 0);
            }
            return Err(e);
        },
    };
    let mut i: usize = 0;
    proof {
        assert(all.take(0) =~= Seq::<Seq<char>>::empty());
    }
    while i < assignments.len()
        invariant
            all == texts(assignments@),
            all.len() == assignments@.len(),
            i <= assignments@.len(),
            merged_variables(opt_str(variables), all.take(i as int)) == Ok::<Seq<(Seq<char>, JsonV)>, Seq<char>>(jfields_view(merged@)),
        decreases assignments@.len() - i,
    {
        proof {
            assert(all.take(i + 1).drop_last() =~= all.take(i as int));
            assert(all.take(i + 1).last() == assignments@[i as int]@);
        }
        match parse_assignment(assignments[i].as_str()) {
            Ok((name, value)) => {
                insert_field(&mut merged, name, value);
            },
            Err(e) => {
                proof {
                    lemma_merged_error(opt_str(variables), all, i + 1);
                }
                return Err(e);
            },
        }
        i = i + 1;
    }
    proof {
        assert(all.take(i as int) =~= all);
    }
    Ok(merged)
}

/// An error in the first `k` assignments is the error of them all.
proof fn lemma_merged_error(variables: Option<Seq<char>>, a: Seq<Seq<char>>, k: int)
    requires
        0 <= k <= a.len(),
        merged_variables(variables, a.take(k)) is Err,
    ensures
        merged_variables(variables, a) == merged_variables(variables, a.take(k)),
    decreases a.len() - k,
{
    if k < a.len() {
        assert(a.take(k + 1).drop_last() =~= a.take(k));
        lemma_merged_error(variables, a, k + 1);
    } else {
        assert(a.take(k) =~= a);
    }
}

// ---------------------------------------------------------------------------
// The inputs of a run
// ---------------------------------------------------------------------------

/// The bindings `variables` set over `base`, each private.
pub open spec fn bind_variables(base: Seq<(Seq<char>, (ValueV, Visibility))>, variables: Seq<(Seq<char>, JsonV)>) -> Seq<(Seq<char>, (ValueV, Visibility))>
    decreases variables.len(),
{
    if variables.len() == 0 {
        base
    } else {
        field_insert(
            bind_variables(base, variables.drop_last()),
            variables.last().0,
            (value_of_json(variables.last().1), Visibility::Private),
        )
    }
}

/// The bindings a run starts with: the redirected standard input as the
/// document `html`, then the variables (see `merged_variables`); all are
/// private.
pub open spec fn inputs_of(stdin: StdinInput, variables: Option<Seq<char>>, assignments: Seq<Seq<char>>) -> Result<Seq<(Seq<char>, (ValueV, Visibility))>, Seq<char>> {
    let base = match stdin {
        StdinInput::Redirected(source) => seq![("html"@, (ValueV::HtmlDocument(source@), Visibility::Private))],
        StdinInput::Terminal => Seq::<(Seq<char>, (ValueV, Visibility))>::empty(),
    };
    match merged_variables(variables, assignments) {
        Ok(m) => Ok(bind_variables(base, m)),
        Err(e) => Err(e),
    }
}

/// The inputs of a run (see `inputs_of`).
pub fn build_inputs(stdin: StdinInput, variables: Option<&str>, assignments: &[String]) -> (r: Result<Inputs, InputError>)
    ensures
        match inputs_of(stdin, opt_str(variables), texts(assignments@)) {
            Ok(m) => r matches Ok(x) && x@ == m,
            Err(e) => r matches Err(x) && x.0@ == e,
        },
{
    let ghost stdin_view = stdin;
    let mut inputs = Inputs::new();
    match stdin {
        StdinInput::Redirected(source) => {
            let document = HtmlDocument::parse(source.as_str());
            proof {
                lemma_document_view(document);
            }
            inputs = inputs.insert("html", Value::HtmlDocument(document), Visibility::Private);
            proof {
                assert(inputs@ =~= seq![("html"@, (ValueV::HtmlDocument(source@), Visibility::Private))]);
            }
        },
        StdinInput::Terminal => {},
    }
    let ghost base = inputs@;
    let merged = match merge_variables(variables, assignments) {
        Ok(m) => m,
        Err(e) => {
            return Err(e);
        },
    };
    let ghost mv = jfields_view(merged@);
    proof {
        lemma_jfields_len(merged@);
        assert(mv.take(0) =~= Seq::<(Seq<char>, JsonV)>::empty());
    }
    let mut i: usize = 0;
    while i < merged.len()
        invariant
            mv == jfields_view(merged@),
            mv.len() == merged@.len(),
            i <= merged@.len(),
            inputs@ == bind_variables(base, mv.take(i as int)),
        decreases merged@.len() - i,
    {
        proof {
            lemma_jfields_index(merged@, i as int);
            assert(mv.take(i + 1).drop_last() =~= mv.take(i as int));
        }
        let value = value_from_json(&merged[i].1);
        inputs = inputs.insert(merged[i].0.as_str(), value, Visibility::Private);
        i = i + 1;
    }
    proof {
        assert(mv.take(i as int) =~= mv);
    }
    Ok(inputs)
}

/// What `first_field_from` finds: the first position from `k` on.
proof fn lemma_first_field_found<V>(m: Seq<(Seq<char>, V)>, name: Seq<char>, k: int, i: int)
    requires
        0 <= k <= i < m.len(),
        m[i].0 == name,
        forall|j: int| k <= j < i ==> (#[trigger] m[j]).0 != name,
    ensures
        first_field_from(m, name, k) == Some(i),
    decreases i - k,
{
    if k < i {
        lemma_first_field_found(m, name, k + 1, i);
    }
}

/// Where `first_field_from` finds a name, no earlier position from `k` on
/// holds it.
proof fn lemma_first_field_facts<V>(m: Seq<(Seq<char>, V)>, name: Seq<char>, k: int)
    requires
        0 <= k,
    ensures
        match first_field_from(m, name, k) {
            Some(i) => k <= i < m.len() && m[i].0 == name && forall|j: int| k <= j < i ==> (#[trigger] m[j]).0 != name,
            None => forall|j: int| k <= j < m.len() ==> (#[trigger] m[j]).0 != name,
        },
    decreases m.len() - k,
{
    if k < m.len() && m[k].0 != name {
        lemma_first_field_facts(m, name, k + 1);
    }
}

/// A name set in fields is then bound to the value it was set to.
pub(crate) proof fn lemma_field_get_insert<V>(m: Seq<(Seq<char>, V)>, name: Seq<char>, v: V)
    ensures
        field_get(field_insert(m, name, v), name) == Some(v),
{
    lemma_first_field_facts(m, name, 0);
    let u = field_insert(m, name, v);
    match first_field_from(m, name, 0) {
        Some(i) => {
            assert forall|j: int| 0 <= j < i implies (#[trigger] u[j]).0 != name by {
                assert(u[j] == m[j]);
            }
            lemma_first_field_found(u, name, 0, i);
        },
        None => {
            assert forall|j: int| 0 <= j < m.len() implies (#[trigger] u[j]).0 != name by {
                assert(u[j] == m[j]);
            }
            lemma_first_field_found(u, name, 0, m.len() as int);
        },
    }
}

/// Assignments override: when variables merge, the name of the last
/// assignment is bound to that assignment's value, whatever `--variables`
/// and the assignments before it bound it to.
pub proof fn law_last_assignment_wins(variables: Option<Seq<char>>, assignments: Seq<Seq<char>>, last: Seq<char>)
    requires
        merged_variables(variables, assignments.push(last)) is Ok,
    ensures
        assignment_of(last) matches Ok((name, value)) && field_get(
            merged_variables(variables, assignments.push(last))->Ok_0,
            name,
        ) == Some(value),
{
    let all = assignments.push(last);
    assert(all.drop_last() =~= assignments);
    assert(all.last() == last);
    match merged_variables(variables, assignments) {
        Ok(m) => match assignment_of(last) {
            Ok((name, value)) => {
                lemma_field_get_insert(m, name, value);
            },
            Err(_) => {},
        },
        Err(_) => {},
    }
}


/// Every binding in `m` is private.
pub open spec fn all_private(m: Seq<(Seq<char>, (ValueV, Visibility))>) -> bool {
    forall|k: int| 0 <= k < m.len() ==> #[trigger] m[k].1.1 == Visibility::Private
}

proof fn lemma_first_field_in_range<V>(m: Seq<(Seq<char>, V)>, name: Seq<char>, j: int)
    ensures
        first_field_from(m, name, j) matches Some(i) ==> 0 <= i < m.len(),
    decreases m.len() - j,
{
    if 0 <= j < m.len() && m[j].0 != name {
        lemma_first_field_in_range(m, name, j + 1);
    }
}

proof fn lemma_bind_variables_private(base: Seq<(Seq<char>, (ValueV, Visibility))>, variables: Seq<(Seq<char>, JsonV)>)
    requires
        all_private(base),
    ensures
        all_private(bind_variables(base, variables)),
    decreases variables.len(),
{
    if variables.len() > 0 {
        let before = bind_variables(base, variables.drop_last());
        lemma_bind_variables_private(base, variables.drop_last());
        let after = bind_variables(base, variables);
        lemma_first_field_in_range(before, variables.last().0, 0);
        assert forall|k: int| 0 <= k < after.len() implies #[trigger] after[k].1.1 == Visibility::Private by {
            match first_field_from(before, variables.last().0, 0) {
                Some(i) => {
                    if k != i {
                        assert(after[k] == before[k]);
                    }
                },
                None => {
                    if k < before.len() {
                        assert(after[k] == before[k]);
                    }
                },
            }
        }
    }
}

/// The command line gives a run only private inputs: the document read
/// from standard input and every variable are bound privately, so none of
/// them shows in the run's output unless the script assigns it.
pub proof fn law_command_line_inputs_are_private(stdin: StdinInput, variables: Option<Seq<char>>, assignments: Seq<Seq<char>>)
    ensures
        match inputs_of(stdin, variables, assignments) {
            Ok(m) => forall|k: int| 0 <= k < m.len() ==> #[trigger] m[k].1.1 == Visibility::Private,
            Err(_) => true,
        },
{
    let base = match stdin {
        StdinInput::Redirected(source) => seq![("html"@, (ValueV::HtmlDocument(source@), Visibility::Private))],
        StdinInput::Terminal => Seq::<(Seq<char>, (ValueV, Visibility))>::empty(),
    };
    assert(all_private(base));
    match merged_variables(variables, assignments) {
        Ok(mv) => {
            lemma_bind_variables_private(base, mv);
        },
        Err(_) => {},
    }
}

} // verus!
