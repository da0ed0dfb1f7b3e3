use html_extractor::Span;
use html_extractor::runtime::HttpMethod;
use html_extractor::value::{Object, Value, fetch_request};

fn text(s: &str) -> Value {
    Value::String(s.to_owned())
}

fn span() -> Span {
    Span::new(3, 9)
}

fn options(entries: Vec<(&str, Value)>) -> Value {
    let mut object = Object::new();
    for (name, value) in entries {
        object.insert(name, value);
    }
    Value::Object(object)
}

fn fetch_error(arguments: Vec<Value>) -> String {
    let error = fetch_request(arguments, span()).unwrap_err();
    assert_eq!(error.span(), Some(span()));
    error.message().to_owned()
}

#[test]
fn a_url_alone_is_a_plain_get() {
    let request = fetch_request(vec![text("https://example.test/")], span()).unwrap();
    assert_eq!(request.method(), HttpMethod::Get);
    assert_eq!(request.url(), "https://example.test/");
    assert_eq!(request.body(), None);
    assert!(!request.cloudflare());
}

#[test]
fn json_options_build_a_post_with_an_encoded_body() {
    let mut body = Object::new();
    body.insert("q", text("rust"));
    body.insert("page", Value::Number(serde_json::Number::from(2)));
    let request = fetch_request(
        vec![
            text("https://example.test/api"),
            options(vec![
                ("method", text("post")),
                ("json", Value::Object(body)),
                ("cloudflare", Value::Boolean(true)),
            ]),
        ],
        span(),
    )
    .unwrap();
    assert_eq!(request.method(), HttpMethod::Post);
    assert_eq!(request.body(), Some(&br#"{"q":"rust","page":2}"#[..]));
    assert_eq!(request.content_type(), Some("application/json"));
    assert!(request.cloudflare());
}

#[test]
fn urlencoded_options_build_a_form_body() {
    let request = fetch_request(
        vec![
            text("https://example.test/form"),
            options(vec![
                ("method", text("POST")),
                ("urlencoded", options(vec![("a", text("1 2")), ("b", text("&"))])),
            ]),
        ],
        span(),
    )
    .unwrap();
    assert_eq!(request.body(), Some(&b"a=1+2&b=%26"[..]));
    assert_eq!(
        request.content_type(),
        Some("application/x-www-form-urlencoded")
    );
}

#[test]
fn invalid_options_are_reported_at_the_call() {
    let url = || text("https://example.test/");
    assert_eq!(
        fetch_error(vec![url(), options(vec![("timeout", Value::Null)])]),
        "unknown `fetch` option `timeout`"
    );
    assert_eq!(
        fetch_error(vec![url(), options(vec![("method", Value::Null)])]),
        "`fetch` option `method` must be a string"
    );
    assert_eq!(
        fetch_error(vec![url(), options(vec![("headers", text("x"))])]),
        "`fetch` option `headers` must be an object"
    );
    assert_eq!(
        fetch_error(vec![
            url(),
            options(vec![("headers", options(vec![("Accept", Value::Boolean(true))]))])
        ]),
        "`fetch` header `Accept` must be a string"
    );
    assert_eq!(
        fetch_error(vec![url(), options(vec![("cloudflare", text("yes"))])]),
        "`fetch` option `cloudflare` must be a boolean"
    );
    assert_eq!(
        fetch_error(vec![
            url(),
            options(vec![("json", Value::Null), ("urlencoded", options(vec![]))])
        ]),
        "`fetch` options cannot contain both `json` and `urlencoded`"
    );
    assert_eq!(
        fetch_error(vec![url(), options(vec![("json", Value::Null)])]),
        "`fetch` GET options must not include `json`"
    );
    assert_eq!(
        fetch_error(vec![url(), options(vec![("method", text("PUT"))])]),
        "unsupported `fetch` method `PUT`"
    );
    assert_eq!(
        fetch_error(vec![url(), options(vec![("urlencoded", text("a=b"))])]),
        "`fetch` option `urlencoded` must be an object"
    );
    assert_eq!(
        fetch_error(vec![
            url(),
            options(vec![("urlencoded", options(vec![("n", Value::Null)]))])
        ]),
        "`fetch` urlencoded field `n` must be a string"
    );
    assert_eq!(fetch_error(vec![url(), text("x")]), "`fetch` options must be an object");
    assert_eq!(
        fetch_error(vec![]),
        "`fetch` expects a URL string and optional options object"
    );
}

#[test]
fn json_bodies_must_be_serializable() {
    let document = Value::HtmlDocument(html_extractor::runtime::HtmlDocument::parse("<p>"));
    assert_eq!(
        fetch_error(vec![
            text("https://example.test/"),
            options(vec![("method", text("POST")), ("json", options(vec![("doc", document)]))])
        ]),
        "invalid `fetch` JSON body: cannot serialize HTML document at $.doc"
    );
}
