use html_extractor::runtime::{HtmlDocument, HtmlNode, Response};
use html_extractor::value::{contains, ensure_suffix, join, len, trim, urlencode, Object, Value};
use html_extractor::Span;

fn text(s: &str) -> Value {
    Value::String(s.to_owned())
}

fn number(n: i64) -> Value {
    Value::Number(serde_json::Number::from(n))
}

fn float(x: f64) -> Value {
    Value::Number(serde_json::Number::from_f64(x).unwrap())
}

fn span() -> Span {
    Span::new(3, 9)
}

fn message(result: Result<Value, html_extractor::runtime::ExecutionError>) -> String {
    let error = result.unwrap_err();
    assert_eq!(error.span(), Some(span()));
    error.message().to_owned()
}

#[test]
fn len_counts_bytes_of_strings_and_items_of_arrays() {
    assert_eq!(len(text("héllo"), vec![], span()).unwrap(), number(6));
    assert_eq!(
        len(Value::Array(vec![number(1), number(2), number(3)]), vec![], span()).unwrap(),
        number(3)
    );
    assert_eq!(message(len(Value::Null, vec![], span())), "`Null` not supported by len");
    assert_eq!(
        message(len(number(1), vec![], span())),
        "`Number(Number(1))` not supported by len"
    );
    assert_eq!(
        message(len(text("a"), vec![number(1)], span())),
        "`len` expects no arguments"
    );
}

#[test]
fn trim_strips_whitespace_from_strings_in_nested_arrays() {
    assert_eq!(
        trim(text("  hello world  "), vec![], span()).unwrap(),
        text("hello world")
    );
    assert_eq!(
        trim(text("\u{3000}x y\t\n"), vec![], span()).unwrap(),
        text("x y")
    );
    assert_eq!(trim(text("   "), vec![], span()).unwrap(), text(""));
    assert_eq!(
        trim(
            Value::Array(vec![text(" a "), Value::Array(vec![text("b ")])]),
            vec![],
            span()
        )
        .unwrap(),
        Value::Array(vec![text("a"), Value::Array(vec![text("b")])])
    );
    assert_eq!(
        message(trim(Value::Array(vec![text(" a "), Value::Boolean(true)]), vec![], span())),
        "`contains` is not supported for Boolean(true)"
    );
}

#[test]
fn contains_finds_substrings() {
    assert_eq!(
        contains(text("hello world"), vec![text("hello")], span()).unwrap(),
        Value::Boolean(true)
    );
    assert_eq!(
        contains(text("hello"), vec![text("lo w")], span()).unwrap(),
        Value::Boolean(false)
    );
    assert_eq!(
        contains(text("abc"), vec![text("")], span()).unwrap(),
        Value::Boolean(true)
    );
    assert_eq!(
        message(contains(text("abc"), vec![number(1)], span())),
        "`contains` expects one string "
    );
    assert_eq!(
        message(contains(Value::Null, vec![text("a")], span())),
        "`contains` is not supported for Null"
    );
}

#[test]
fn ensure_suffix_appends_only_when_missing() {
    assert_eq!(
        ensure_suffix(text("path"), vec![text("/")], span()).unwrap(),
        text("path/")
    );
    assert_eq!(
        ensure_suffix(text("path/"), vec![text("/")], span()).unwrap(),
        text("path/")
    );
    assert_eq!(
        ensure_suffix(text(""), vec![text("ab")], span()).unwrap(),
        text("ab")
    );
    assert_eq!(
        message(ensure_suffix(text("a"), vec![], span())),
        "`ensure_suffix` expects one string name"
    );
    assert_eq!(
        message(ensure_suffix(Value::Boolean(false), vec![text("a")], span())),
        "`ensure_suffix` only supports string types and not Boolean(false)"
    );
}

#[test]
fn join_appends_strings_and_numbers() {
    assert_eq!(join(text("a"), vec![text("b")], span()).unwrap(), text("ab"));
    assert_eq!(join(text("page"), vec![number(2)], span()).unwrap(), text("page2"));
    assert_eq!(join(text("x"), vec![float(1.5)], span()).unwrap(), text("x1.5"));
    assert_eq!(
        message(join(text("a"), vec![Value::Null], span())),
        "`join` expects one string or number item"
    );
    assert_eq!(
        message(join(number(1), vec![text("a")], span())),
        "`join` only supports string types and not Number(Number(1))"
    );
}

#[test]
fn urlencode_encodes_form_values() {
    assert_eq!(
        urlencode(text("a b+c&d/e?"), vec![], span()).unwrap(),
        text("a+b%2Bc%26d%2Fe%3F")
    );
    assert_eq!(
        urlencode(Value::Array(vec![text("x y"), Value::Array(vec![text("é")])]), vec![], span())
            .unwrap(),
        Value::Array(vec![text("x+y"), Value::Array(vec![text("%C3%A9")])])
    );
    assert_eq!(
        message(urlencode(number(1), vec![], span())),
        "`urlencode` expected a string, got number"
    );
    assert_eq!(
        message(urlencode(text("a"), vec![text("b")], span())),
        "`urlencode` expects no arguments"
    );
}

#[test]
fn debug_text_writes_kinds_and_escaped_contents() {
    let mut object = Object::new();
    object.insert("a", text("it's \"q\"\n"));
    object.insert("b", Value::Array(vec![Value::Null, Value::Boolean(true)]));
    assert_eq!(
        Value::Object(object).debug_text(),
        "Object({\"a\": String(\"it's \\\"q\\\"\\n\"), \"b\": Array([Null, Boolean(true)])})"
    );
    assert_eq!(Value::Array(vec![]).debug_text(), "Array([])");
    assert_eq!(Value::Object(Object::new()).debug_text(), "Object({})");
    assert_eq!(
        Value::HtmlDocument(HtmlDocument::parse("<p>")).debug_text(),
        "HtmlDocument { source: \"<p>\" }"
    );
    assert_eq!(
        Value::HtmlNode(HtmlNode::new("<b>x</b>", "b")).debug_text(),
        "HtmlNode { fragment: \"<b>x</b>\", root_tag: \"b\" }"
    );
    assert_eq!(
        Value::Response(Response::new(200, "https://a.test/", vec![1, 2])).debug_text(),
        "Response { status: 200, url: \"https://a.test/\", body_len: 2 }"
    );
    assert_eq!(float(0.5).debug_text(), "Number(Number(0.5))");
}
