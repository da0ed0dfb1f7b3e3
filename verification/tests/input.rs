use html_extractor::input::{build_inputs, merge_variables, parse_assignment, InputError, StdinInput};
use html_extractor::scope::Inputs;
use html_extractor::runtime::HtmlDocument;
use html_extractor::value::{json_to_value, Json, Value};
use html_extractor::Visibility;

fn number(n: i64) -> Json {
    Json::Number(serde_json::Number::from(n))
}

fn text(s: &str) -> Json {
    Json::String(s.to_owned())
}

fn lookup<'a>(fields: &'a [(String, Json)], name: &str) -> Option<&'a Json> {
    fields
        .iter()
        .find(|(field, _)| field == name)
        .map(|(_, value)| value)
}

#[test]
fn assignment_values_use_json_then_string_fallback() {
    assert_eq!(
        parse_assignment("limit=10").unwrap(),
        ("limit".to_owned(), number(10))
    );
    assert_eq!(
        parse_assignment("enabled=true").unwrap(),
        ("enabled".to_owned(), Json::Bool(true))
    );
    assert_eq!(
        parse_assignment("category=books").unwrap(),
        ("category".to_owned(), text("books"))
    );
}

#[test]
fn assignments_require_a_non_empty_name_and_equals_sign() {
    assert!(parse_assignment("missing").is_err());
    assert!(parse_assignment("=value").is_err());
}

#[test]
fn repeated_variables_override_json_in_argument_order() {
    let variables = merge_variables(
        Some(r#"{"html":"json","limit":1}"#),
        &["html=explicit".into(), "limit=2".into(), "limit=3".into()],
    )
    .unwrap();

    assert_eq!(lookup(&variables, "html"), Some(&text("explicit")));
    assert_eq!(lookup(&variables, "limit"), Some(&number(3)));
}

#[test]
fn variables_json_must_be_an_object() {
    assert!(merge_variables(Some("[]"), &[]).is_err());
    assert!(merge_variables(Some("null"), &[]).is_err());
}

#[test]
fn json_values_convert_recursively_without_losing_object_order() {
    let json = Json::Object(vec![
        ("name".to_owned(), text("books")),
        (
            "flags".to_owned(),
            Json::Array(vec![Json::Bool(true), Json::Null]),
        ),
        ("count".to_owned(), number(2)),
    ]);
    let value = json_to_value(Json::Object(vec![
        ("name".to_owned(), text("books")),
        (
            "flags".to_owned(),
            Json::Array(vec![Json::Bool(true), Json::Null]),
        ),
        ("count".to_owned(), number(2)),
    ]));

    assert_eq!(value.to_json().unwrap(), json);
}

#[test]
fn assignment_errors_name_the_assignment_and_the_reason() {
    assert_eq!(
        parse_assignment("missing"),
        Err(InputError(
            "invalid --variable `missing`: expected NAME=VALUE".to_owned()
        ))
    );
    assert_eq!(
        parse_assignment("=value").unwrap_err().message(),
        "invalid --variable `=value`: NAME must not be empty"
    );
}

#[test]
fn assignment_splits_at_the_first_equals_sign() {
    assert_eq!(
        parse_assignment("query=a=b").unwrap(),
        ("query".to_owned(), text("a=b"))
    );
    assert_eq!(
        parse_assignment("empty=").unwrap(),
        ("empty".to_owned(), text(""))
    );
    assert_eq!(
        parse_assignment("list=[1,2]").unwrap(),
        ("list".to_owned(), Json::Array(vec![number(1), number(2)]))
    );
}

#[test]
fn variables_errors_say_what_is_wrong() {
    assert_eq!(
        merge_variables(Some("[]"), &[]).unwrap_err().message(),
        "invalid --variables: expected a JSON object"
    );
    let error = merge_variables(Some("{"), &[]).unwrap_err();
    assert!(error.message().starts_with("invalid --variables JSON: "));
    assert_eq!(
        merge_variables(Some("{}"), &["ok=1".into(), "broken".into(), "=x".into()]),
        Err(InputError(
            "invalid --variable `broken`: expected NAME=VALUE".to_owned()
        ))
    );
}

#[test]
fn new_assignments_come_after_the_json_variables() {
    let variables = merge_variables(
        Some(r#"{"b":1,"a":2}"#),
        &["c=3".into(), "b=4".into()],
    )
    .unwrap();
    assert_eq!(
        variables,
        vec![
            ("b".to_owned(), number(4)),
            ("a".to_owned(), number(2)),
            ("c".to_owned(), number(3)),
        ]
    );
    assert_eq!(merge_variables(None, &[]).unwrap(), vec![]);
}

#[test]
fn inputs_keep_the_first_place_of_a_name() {
    let inputs = Inputs::new()
        .insert("a", Value::Null, Visibility::Public)
        .insert("b", Value::Boolean(true), Visibility::Private)
        .insert("a", Value::Boolean(false), Visibility::Private);
    assert_eq!(inputs.get("a"), Some(&Value::Boolean(false)));
    assert_eq!(inputs.get("b"), Some(&Value::Boolean(true)));
    assert_eq!(inputs.get("c"), None);
}

#[test]
fn redirected_stdin_becomes_the_html_input() {
    let inputs = build_inputs(
        StdinInput::Redirected("<p>hi</p>".to_owned()),
        None,
        &["limit=5".into()],
    )
    .unwrap();
    assert_eq!(
        inputs.get("html"),
        Some(&Value::HtmlDocument(HtmlDocument::parse("<p>hi</p>")))
    );
    assert_eq!(
        inputs.get("limit"),
        Some(&Value::Number(serde_json::Number::from(5)))
    );

    let inputs = build_inputs(StdinInput::Terminal, None, &[]).unwrap();
    assert_eq!(inputs.get("html"), None);

    let inputs = build_inputs(
        StdinInput::Redirected("<p></p>".to_owned()),
        None,
        &["html=text".into()],
    )
    .unwrap();
    assert_eq!(
        inputs.get("html"),
        Some(&Value::String("text".to_owned()))
    );

    assert!(build_inputs(StdinInput::Terminal, Some("1"), &[]).is_err());
}
