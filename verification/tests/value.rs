use html_extractor::runtime::{HtmlDocument, HttpMethod, Response, ValueKind};
use html_extractor::value::{Json, Object, Value};

fn number(n: i64) -> Value {
    Value::Number(serde_json::Number::from(n))
}

fn text(s: &str) -> Value {
    Value::String(s.to_owned())
}

#[test]
fn objects_preserve_insertion_order_and_accessors_are_strict() {
    let mut object = Object::new();
    object.insert("second", number(2));
    object.insert("first", text("one"));

    assert_eq!(object.keys(), ["second", "first"]);
    assert_eq!(
        Value::Array(vec![Value::Null])
            .expect_array()
            .unwrap()
            .len(),
        1
    );
    assert!(text("not an array").expect_array().is_err());
    assert_eq!(text("text").expect_string().unwrap(), "text");
}

#[test]
fn json_conversion_reports_the_complete_native_value_path() {
    let mut nested = Object::new();
    nested.insert(
        "node",
        Value::HtmlDocument(HtmlDocument::parse("<h1>title</h1>")),
    );
    let mut output = Object::new();
    output.insert("items", Value::Array(vec![Value::Object(nested)]));

    let error = Value::Object(output).to_json().unwrap_err();
    assert_eq!(error.path(), "$.items[0].node");
}

#[test]
fn compatible_values_convert_without_mutating_the_source() {
    let value = Value::Array(vec![Value::Null, Value::Boolean(true), number(12)]);
    let json = value.to_json().unwrap();

    assert_eq!(
        json,
        Json::Array(vec![Json::Null, Json::Bool(true), Json::Number(serde_json::Number::from(12))])
    );
    assert_eq!(json.to_text().unwrap(), "[null,true,12]");
    assert_eq!(value.expect_array().unwrap().len(), 3);
}

#[test]
fn strict_accessors_report_the_actual_value_kind() {
    let error = Value::Boolean(true).expect_number().unwrap_err();
    assert_eq!(error.to_string(), "expected number, got boolean");

    let error = Value::Null.expect_object().unwrap_err();
    assert_eq!(error.to_string(), "expected object, got null");

    let error = number(3).expect_boolean().unwrap_err();
    assert_eq!(error.to_string(), "expected boolean, got number");
}

#[test]
fn value_kinds_cover_native_and_serializable_variants() {
    assert_eq!(Value::Null.kind(), ValueKind::Null);
    assert_eq!(Value::Array(Vec::new()).kind(), ValueKind::Array);
    assert_eq!(Value::Object(Object::new()).kind(), ValueKind::Object);
    assert_eq!(
        Value::HtmlDocument(HtmlDocument::parse("")).kind(),
        ValueKind::HtmlDocument
    );
    assert_eq!(
        Value::Response(Response::new(200, "https://test", Vec::new())).kind(),
        ValueKind::Response
    );
}

#[test]
fn serialization_reports_nested_array_paths() {
    let value = Value::Array(vec![Value::Array(vec![Value::Response(Response::new(
        200,
        "https://test",
        Vec::new(),
    ))])]);

    let error = value.to_json().unwrap_err();
    assert_eq!(error.path(), "$[0][0]");
    assert_eq!(error.kind(), ValueKind::Response);
}

#[test]
fn object_replacement_keeps_original_position() {
    let mut object = Object::new();
    object.insert("a", number(1));
    object.insert("b", number(2));
    assert_eq!(object.insert("a", number(3)), Some(number(1)));

    assert_eq!(object.keys(), ["a", "b"]);
    assert_eq!(object.get("a"), Some(&number(3)));
}

#[test]
fn serialized_json_objects_keep_extractor_insertion_order() {
    let mut object = Object::new();
    object.insert("z", number(1));
    object.insert("a", number(2));
    object.insert("middle", number(3));

    let json = Value::Object(object).to_json().unwrap();
    assert_eq!(json.to_text().unwrap(), r#"{"z":1,"a":2,"middle":3}"#);
}

#[test]
fn object_length_and_entries_follow_inserts() {
    let mut object = Object::default();
    assert!(object.is_empty());
    assert_eq!(object.insert("k", Value::Null), None);
    assert_eq!(object.insert("k", Value::Boolean(false)), Some(Value::Null));
    assert_eq!(object.len(), 1);
    assert_eq!(object.iter()[0].0, "k");
    assert_eq!(object.get("missing"), None);
    assert_eq!(
        Value::Array(vec![Value::Null]).into_array().unwrap(),
        vec![Value::Null]
    );
    assert_eq!(
        Value::Null.into_array().unwrap_err().to_string(),
        "expected array, got null"
    );
}
