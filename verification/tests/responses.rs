use html_extractor::runtime::{Diagnostic, HtmlDocument, HtmlNode, Response};
use html_extractor::value::{json, status, ExecutionResult, Json, Object, Value};
use html_extractor::Span;

fn text(s: &str) -> Value {
    Value::String(s.to_owned())
}

fn number(n: i64) -> Value {
    Value::Number(serde_json::Number::from(n))
}

fn span() -> Span {
    Span::new(4, 8)
}

#[test]
fn status_reads_the_code_of_a_response() {
    let response = Value::Response(Response::new(404, "https://test", vec![]));
    assert_eq!(status(response, vec![], span()).unwrap(), number(404));
    let error = status(text("x"), vec![], span()).unwrap_err();
    assert_eq!(error.message(), "`status` expects a response");
    assert_eq!(error.span(), Some(span()));
}

#[test]
fn response_json_reads_the_body() {
    let response = Response::new(200, "https://test", br#"{"ok":true,"n":[1]}"#.to_vec());
    assert_eq!(
        response.json().unwrap(),
        Json::Object(vec![
            ("ok".to_owned(), Json::Bool(true)),
            (
                "n".to_owned(),
                Json::Array(vec![Json::Number(serde_json::Number::from(1))])
            ),
        ])
    );
    let broken = Response::new(200, "https://test", b"{".to_vec());
    let error = broken.json().unwrap_err();
    assert!(error.message().starts_with("invalid response JSON: "));
    assert_eq!(error.span(), None);
}

#[test]
fn json_reads_responses_and_strings_as_values() {
    let response = Value::Response(Response::new(200, "https://test", br#"{"b":2,"a":1}"#.to_vec()));
    let mut expected = Object::new();
    expected.insert("b", number(2));
    expected.insert("a", number(1));
    assert_eq!(json(response, vec![], span()).unwrap(), Value::Object(expected));

    assert_eq!(
        json(text("[1, null, \"x\"]"), vec![], span()).unwrap(),
        Value::Array(vec![number(1), Value::Null, text("x")])
    );

    let error = json(text("{"), vec![], span()).unwrap_err();
    assert!(error.message().starts_with("Failed to parse `{` to json: Error("));
    assert_eq!(error.span(), Some(span()));

    let error = json(Value::Response(Response::new(200, "https://test", b"nope".to_vec())), vec![], span())
        .unwrap_err();
    assert!(error.message().starts_with("invalid response JSON: "));
    assert_eq!(error.span(), None);

    let error = json(Value::Null, vec![], span()).unwrap_err();
    assert_eq!(error.message(), "`json` expects a response");
    let error = json(text("1"), vec![Value::Null], span()).unwrap_err();
    assert_eq!(error.message(), "`json` expects no arguments");
}

#[test]
fn debug_json_names_documents_and_summarizes_responses() {
    assert_eq!(
        Value::HtmlDocument(HtmlDocument::parse("<p>")).to_debug_json().unwrap(),
        Json::String("HtmlDocument".to_owned())
    );
    assert_eq!(
        Value::HtmlNode(HtmlNode::new("<b>x</b>", "b")).to_debug_json().unwrap(),
        Json::String("HtmlNode".to_owned())
    );
    let body = "é".repeat(25) + "tail";
    let response = Value::Response(Response::new(200, "https://test/x", body.into_bytes()));
    assert_eq!(
        response.to_debug_json().unwrap(),
        Json::Object(vec![
            ("type".to_owned(), Json::String("Response".to_owned())),
            ("status".to_owned(), Json::Number(serde_json::Number::from(200))),
            ("url".to_owned(), Json::String("https://test/x".to_owned())),
            ("body".to_owned(), Json::String("é".repeat(25))),
        ])
    );
    assert_eq!(text("a").to_debug_json().unwrap(), Json::String("a".to_owned()));
    let nested = Value::Array(vec![Value::HtmlDocument(HtmlDocument::parse("<p>"))]);
    assert!(nested.to_debug_json().is_err());
}

#[test]
fn execution_results_expose_output_and_warnings() {
    let mut output = Object::new();
    output.insert("title", text("Books"));
    let result = ExecutionResult::new(output, vec![Diagnostic::new("careful", Some(span()))]);
    assert_eq!(result.output().get("title"), Some(&text("Books")));
    assert_eq!(result.warnings().len(), 1);
    assert_eq!(result.warnings()[0].message(), "careful");
    assert_eq!(
        result.to_json().unwrap(),
        Json::Object(vec![("title".to_owned(), Json::String("Books".to_owned()))])
    );
}
