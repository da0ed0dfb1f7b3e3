use html_extractor::runtime::{HtmlDocument, Response};
use html_extractor::value::{range, sorted, take, unique, value_eq, zip, Object, Sorted, Value};
use html_extractor::Span;

fn text(s: &str) -> Value {
    Value::String(s.to_owned())
}

fn number(n: i64) -> Value {
    Value::Number(serde_json::Number::from(n))
}

fn float(x: f64) -> Value {
    Value::Number(serde_json::Number::from_f64(x).unwrap())
}

fn array(items: Vec<Value>) -> Value {
    Value::Array(items)
}

fn span() -> Span {
    Span::new(2, 7)
}

fn message(result: Result<Value, html_extractor::runtime::ExecutionError>) -> String {
    let error = result.unwrap_err();
    assert_eq!(error.span(), Some(span()));
    error.message().to_owned()
}

#[test]
fn range_counts_up_to_the_end() {
    assert_eq!(
        range(number(1), vec![number(5)], span()).unwrap(),
        array(vec![number(1), number(2), number(3), number(4)])
    );
    assert_eq!(
        range(number(-2), vec![number(0)], span()).unwrap(),
        array(vec![number(-2), number(-1)])
    );
    assert_eq!(range(number(3), vec![number(3)], span()).unwrap(), array(vec![]));
    assert_eq!(range(number(5), vec![number(1)], span()).unwrap(), array(vec![]));
}

#[test]
fn range_rejects_other_arguments() {
    assert_eq!(
        message(range(float(1.5), vec![number(3)], span())),
        "`range` expects integer arguments"
    );
    assert_eq!(
        message(range(number(1), vec![text("3")], span())),
        "`range` expects integer arguments"
    );
    assert_eq!(
        message(range(number(1), vec![], span())),
        "`range` expects exactly two arguments"
    );
}

#[test]
fn take_keeps_a_prefix() {
    let items = || array(vec![number(1), number(2), number(3)]);
    assert_eq!(
        take(items(), vec![number(2)], span()).unwrap(),
        array(vec![number(1), number(2)])
    );
    assert_eq!(take(items(), vec![number(5)], span()).unwrap(), items());
    assert_eq!(take(items(), vec![number(0)], span()).unwrap(), array(vec![]));
}

#[test]
fn take_rejects_bad_counts_before_the_receiver() {
    assert_eq!(
        message(take(array(vec![number(1)]), vec![number(-1)], span())),
        "`take` expects a non-negative integer"
    );
    assert_eq!(
        message(take(text("abc"), vec![float(1.5)], span())),
        "`take` expects a non-negative integer"
    );
    assert_eq!(
        message(take(text("abc"), vec![number(1)], span())),
        "expected array, got string"
    );
    assert_eq!(
        message(take(array(vec![]), vec![], span())),
        "`take` expects exactly one count"
    );
}

#[test]
fn zip_makes_rows_of_items_at_each_position() {
    assert_eq!(
        zip(
            array(vec![number(1), number(2)]),
            vec![
                array(vec![text("a"), text("b")]),
                array(vec![Value::Boolean(true), Value::Boolean(false)]),
            ],
            span()
        )
        .unwrap(),
        array(vec![
            array(vec![number(1), text("a"), Value::Boolean(true)]),
            array(vec![number(2), text("b"), Value::Boolean(false)]),
        ])
    );
    assert_eq!(
        zip(array(vec![]), vec![array(vec![])], span()).unwrap(),
        array(vec![])
    );
}

#[test]
fn zip_rejects_missing_mismatched_and_non_arrays() {
    assert_eq!(
        message(zip(array(vec![number(1)]), vec![array(vec![number(2), number(3)])], span())),
        "`zip` expects arrays with the same length"
    );
    assert_eq!(
        message(zip(array(vec![number(1)]), vec![], span())),
        "`zip` expects at least two arrays"
    );
    assert_eq!(
        message(zip(number(1), vec![array(vec![])], span())),
        "expected array, got number"
    );
    assert_eq!(
        message(zip(
            array(vec![number(1)]),
            vec![text("x"), array(vec![number(1), number(2)])],
            span()
        )),
        "expected array, got string"
    );
}

#[test]
fn unique_keeps_the_first_of_equal_items() {
    assert_eq!(
        unique(
            array(vec![number(1), number(1), number(2), number(1)]),
            vec![],
            span()
        )
        .unwrap(),
        array(vec![number(1), number(2)])
    );
    assert_eq!(
        unique(
            array(vec![text("a"), Value::Null, text("a"), Value::Null, text("b")]),
            vec![],
            span()
        )
        .unwrap(),
        array(vec![text("a"), Value::Null, text("b")])
    );
    assert_eq!(
        message(unique(text("a"), vec![], span())),
        "expected array, got string"
    );
    assert_eq!(
        message(unique(array(vec![]), vec![number(1)], span())),
        "`unique` expects no arguments"
    );
}

#[test]
fn objects_are_equal_whatever_the_order_of_their_names() {
    let mut first = Object::new();
    first.insert("a", number(1));
    first.insert("b", array(vec![text("x")]));
    let mut second = Object::new();
    second.insert("b", array(vec![text("x")]));
    second.insert("a", number(1));
    let mut third = Object::new();
    third.insert("a", number(1));
    third.insert("b", array(vec![text("y")]));
    let first = Value::Object(first);
    let second = Value::Object(second);
    let third = Value::Object(third);
    assert!(value_eq(&first, &second));
    assert!(!value_eq(&first, &third));
    assert_eq!(
        unique(array(vec![first, second, third]), vec![], span())
            .unwrap()
            .expect_array()
            .unwrap()
            .len(),
        2
    );
}

#[test]
fn equality_compares_kinds_and_contents() {
    assert!(!value_eq(&number(1), &text("1")));
    assert!(!value_eq(&number(1), &float(1.0)));
    assert!(value_eq(&float(2.5), &float(2.5)));
    assert!(value_eq(
        &Value::HtmlDocument(HtmlDocument::parse("<p></p>")),
        &Value::HtmlDocument(HtmlDocument::parse("<p></p>"))
    ));
    assert!(value_eq(
        &Value::Response(Response::new(200, "https://a.test/", b"x".to_vec())),
        &Value::Response(Response::new(200, "https://a.test/", b"x".to_vec()))
    ));
    assert!(!value_eq(
        &Value::Response(Response::new(200, "https://a.test/", b"x".to_vec())),
        &Value::Response(Response::new(404, "https://a.test/", b"x".to_vec()))
    ));
    assert!(!value_eq(&array(vec![number(1)]), &array(vec![number(1), number(2)])));
}

#[test]
fn duplicates_equal_their_originals() {
    let mut object = Object::new();
    object.insert("list", array(vec![number(1), text("a")]));
    object.insert("doc", Value::HtmlDocument(HtmlDocument::parse("<b>x</b>")));
    let value = Value::Object(object);
    assert_eq!(value.duplicate(), value);
    let response = Value::Response(Response::new(201, "https://a.test/x", vec![1, 2, 3]));
    assert_eq!(response.duplicate(), response);
}

#[test]
fn sorted_orders_strings_and_hands_numbers_on() {
    assert_eq!(
        sorted(array(vec![text("pear"), text("apple"), text("Zoo"), text("app"), text("apple")]), vec![], span()).unwrap(),
        Sorted::Strings(vec![
            "Zoo".to_owned(),
            "app".to_owned(),
            "apple".to_owned(),
            "apple".to_owned(),
            "pear".to_owned(),
        ])
    );
    assert_eq!(
        sorted(array(vec![number(3), number(1)]), vec![], span()).unwrap(),
        Sorted::Numbers(vec![serde_json::Number::from(3), serde_json::Number::from(1)])
    );
    assert_eq!(sorted(array(vec![]), vec![], span()).unwrap(), Sorted::Strings(vec![]));
    assert_eq!(
        message(sorted(array(vec![text("a"), number(1)]), vec![], span()).map(|_| Value::Null)),
        "sorting expects homogeneous non-null strings or numbers"
    );
    assert_eq!(
        message(sorted(array(vec![Value::Null]), vec![], span()).map(|_| Value::Null)),
        "sorting expects homogeneous non-null strings or numbers"
    );
    assert_eq!(
        message(sorted(array(vec![]), vec![number(1)], span()).map(|_| Value::Null)),
        "`sorted` expects no arguments"
    );
}
