use html_extractor::engine::{check_requirements, function_key, is_reserved};
use html_extractor::runtime::{HtmlDocument, HtmlNode};
use html_extractor::scope::Inputs;
use html_extractor::value::{is_html_like, Value};
use html_extractor::{compile, FunctionIdentity, Visibility};

fn number(n: i64) -> Value {
    Value::Number(serde_json::Number::from(n))
}

fn document() -> Value {
    Value::HtmlDocument(HtmlDocument::parse("<h1>x</h1>"))
}

#[test]
fn function_keys_join_module_and_name() {
    assert_eq!(
        function_key(&FunctionIdentity::Unqualified("parse_price".into())),
        "parse_price"
    );
    assert_eq!(
        function_key(&FunctionIdentity::Qualified {
            module: "prices".into(),
            name: "normalize".into(),
        }),
        "prices.normalize"
    );
    assert!(is_reserved("fetch"));
    assert!(!is_reserved("fetch2"));
}

#[test]
fn html_like_values_are_documents_nodes_responses_and_arrays_of_them() {
    assert!(is_html_like(&document()));
    assert!(is_html_like(&Value::HtmlNode(HtmlNode::new("<b>x</b>", "b"))));
    assert!(is_html_like(&Value::Array(vec![])));
    assert!(is_html_like(&Value::Array(vec![document(), Value::Array(vec![document()])])));
    assert!(!is_html_like(&Value::Array(vec![document(), number(1)])));
    assert!(!is_html_like(&Value::String("<p>".to_owned())));
}

#[test]
fn missing_required_inputs_refuse_a_run() {
    let program = compile("title = html.css(\"h1\")!.text()").unwrap();
    let error = check_requirements(program.requirements(), &Inputs::new(), &[]).unwrap_err();
    assert_eq!(error.message(), "missing required input `html`");
    assert!(error.span().is_some());

    let inputs = Inputs::new().insert("html", document(), Visibility::Private);
    assert!(check_requirements(program.requirements(), &inputs, &[]).is_ok());
}

#[test]
fn inputs_must_meet_how_the_program_uses_them() {
    let program = compile("title = html.css(\"h1\")!.text()").unwrap();
    let inputs = Inputs::new().insert("html", number(1), Visibility::Private);
    let error = check_requirements(program.requirements(), &inputs, &[]).unwrap_err();
    assert_eq!(
        error.message(),
        "input `html` requires an HTML-like value, got number"
    );
}

#[test]
fn required_host_functions_must_be_provided() {
    let program = compile("a = parse_price(1)\nc = prices.normalize(a)").unwrap();
    let error = check_requirements(program.requirements(), &Inputs::new(), &[]).unwrap_err();
    assert_eq!(error.message(), "missing required function `parse_price`");
    let error = check_requirements(
        program.requirements(),
        &Inputs::new(),
        &["parse_price".to_owned()],
    )
    .unwrap_err();
    assert_eq!(error.message(), "missing required function `prices.normalize`");
    assert!(check_requirements(
        program.requirements(),
        &Inputs::new(),
        &["prices.normalize".to_owned(), "parse_price".to_owned()],
    )
    .is_ok());
}
