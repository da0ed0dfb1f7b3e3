use html_extractor::Span;
use html_extractor::value::{
    Object, Value, extend, first, flatten, has, keys, last, nullcheck, replace, starts_with,
    unwrap_or, values,
};

fn text(s: &str) -> Value {
    Value::String(s.to_owned())
}

fn number(n: i64) -> Value {
    Value::Number(serde_json::Number::from(n))
}

fn span() -> Span {
    Span::new(1, 4)
}

fn object() -> Value {
    let mut object = Object::new();
    object.insert("b", number(1));
    object.insert("a", text("x"));
    Value::Object(object)
}

fn message(result: Result<Value, html_extractor::runtime::ExecutionError>) -> String {
    let error = result.unwrap_err();
    assert_eq!(error.span(), Some(span()));
    error.message().to_owned()
}

#[test]
fn object_functions_read_names_values_and_membership() {
    assert_eq!(
        keys(object(), vec![], span()).unwrap(),
        Value::Array(vec![text("b"), text("a")])
    );
    assert_eq!(
        values(object(), vec![], span()).unwrap(),
        Value::Array(vec![number(1), text("x")])
    );
    assert_eq!(has(object(), vec![text("a")], span()).unwrap(), Value::Boolean(true));
    assert_eq!(has(object(), vec![text("z")], span()).unwrap(), Value::Boolean(false));
    assert_eq!(message(keys(Value::Null, vec![], span())), "keys only work on objects");
    assert_eq!(message(keys(object(), vec![Value::Null], span())), "`keys` expects no arguments");
    assert_eq!(message(values(text("s"), vec![], span())), "values only works on objects");
    assert_eq!(message(has(object(), vec![number(1)], span())), "`has` expects exactly one string key");
    assert_eq!(message(has(Value::Null, vec![text("a")], span())), "has only works on objects");
}

#[test]
fn null_guards_pass_values_through() {
    assert_eq!(nullcheck(number(1), vec![text("missing")], span()).unwrap(), number(1));
    assert_eq!(message(nullcheck(Value::Null, vec![text("missing")], span())), "missing");
    assert_eq!(
        message(nullcheck(Value::Null, vec![], span())),
        "`nullcheck` expects one string argument"
    );
    assert_eq!(unwrap_or(Value::Null, vec![text("d")], span()).unwrap(), text("d"));
    assert_eq!(unwrap_or(text("v"), vec![text("d")], span()).unwrap(), text("v"));
    assert_eq!(message(unwrap_or(Value::Null, vec![], span())), "`unwrap_or` expects one value ");
}

#[test]
fn array_functions_flatten_pick_and_extend() {
    let nested = Value::Array(vec![
        Value::Array(vec![number(1), number(2)]),
        number(3),
        Value::Array(vec![]),
        Value::Array(vec![Value::Array(vec![number(4)])]),
    ]);
    assert_eq!(
        flatten(nested, vec![], span()).unwrap(),
        Value::Array(vec![number(1), number(2), number(3), Value::Array(vec![number(4)])])
    );
    assert_eq!(message(flatten(text("s"), vec![], span())), "expected array, got string");
    assert_eq!(message(flatten(Value::Array(vec![]), vec![Value::Null], span())), "`flatten` expects no arguments");

    let items = || Value::Array(vec![number(1), number(2), number(3)]);
    assert_eq!(first(items(), vec![], span()).unwrap(), number(1));
    assert_eq!(last(items(), vec![], span()).unwrap(), number(3));
    assert_eq!(first(Value::Array(vec![]), vec![], span()).unwrap(), Value::Null);
    assert_eq!(last(Value::Array(vec![]), vec![], span()).unwrap(), Value::Null);
    assert_eq!(message(first(Value::Null, vec![], span())), "expected array, got null");
    assert_eq!(
        extend(items(), vec![Value::Array(vec![number(4)])], span()).unwrap(),
        Value::Array(vec![number(1), number(2), number(3), number(4)])
    );
    assert_eq!(message(extend(items(), vec![], span())), "`extend` expects exactly two arrays");
    assert_eq!(message(extend(items(), vec![number(4)], span())), "expected array, got number");
}

#[test]
fn string_functions_test_prefixes_and_replace() {
    assert_eq!(starts_with(text("https://x"), vec![text("https")], span()).unwrap(), Value::Boolean(true));
    assert_eq!(starts_with(text("ht"), vec![text("https")], span()).unwrap(), Value::Boolean(false));
    assert_eq!(starts_with(text("abc"), vec![text("")], span()).unwrap(), Value::Boolean(true));
    assert_eq!(
        message(starts_with(number(1), vec![text("a")], span())),
        "`starts_with` expected a string, got number"
    );
    assert_eq!(message(starts_with(text("a"), vec![], span())), "`starts_with` expects one string");
    assert_eq!(
        replace(text("a-b-c"), vec![text("-"), text("+")], span()).unwrap(),
        text("a+b+c")
    );
    assert_eq!(replace(text("aaa"), vec![text("aa"), text("b")], span()).unwrap(), text("ba"));
    assert_eq!(replace(text("ab"), vec![text(""), text("-")], span()).unwrap(), text("-a-b-"));
    assert_eq!(message(replace(text("a"), vec![text("a")], span())), "`replace` expects 2 strings");
    assert_eq!(
        message(replace(Value::Null, vec![text("a"), text("b")], span())),
        "`attr` expected an HTML node, got null"
    );
}
