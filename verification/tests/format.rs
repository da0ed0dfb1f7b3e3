use html_extractor::formatter;

#[test]
fn format_normalizes_valid_programs() {
    let source = r#"output=html.css("article").map{
title=it.css("h1").text()
if title {value=title}else{value="untitled"}
}
test{assertEq(1,1,"math")}"#;

    assert_eq!(
        formatter::format(source).unwrap(),
        r#"output = html.css("article").map {
    title = it.css("h1").text()
    if title {
        value = title
    } else {
        value = "untitled"
    }
}

test {
    assertEq(1, 1, "math")
}
"#
    );
}

#[test]
fn format_preserves_private_assignment_prefix_once() {
    assert_eq!(
        formatter::format("_info = catalog.extract_series_chapter(_url)").unwrap(),
        "_info = catalog.extract_series_chapter(_url)\n"
    );
}

#[test]
fn format_preserves_parentheses_and_required_postfix() {
    assert_eq!(
        formatter::format("value=(1+2)*3\nrequired_value=html.css(\"title\")!.text()").unwrap(),
        "value = (1 + 2) * 3\nrequired_value = html.css(\"title\")!.text()\n"
    );
}

#[test]
fn format_breaks_long_postfix_chains() {
    assert_eq!(
        formatter::format("count=[1,2,3].map(v=>v+1).filter(v=>v>1).sort_by_key(v=>v).len()").unwrap(),
        r#"count = [1, 2, 3]
    .map(v => v + 1)
    .filter(v => v > 1)
    .sort_by_key(v => v)
    .len()
"#
    );
}

#[test]
fn format_prints_core_calls_without_dollar_prefix() {
    assert_eq!(
        formatter::format(r#"response=fetch("https://example.test").json()"#).unwrap(),
        r#"response = fetch("https://example.test").json()
"#
    );
}

#[test]
fn format_prefers_dot_access_for_identifier_like_string_subscripts() {
    assert_eq!(
        formatter::format(r#"images=data["images"]["image_alt"]["images-alt"]"#).unwrap(),
        r#"images = data.images.image_alt["images-alt"]
"#
    );
}

#[test]
fn format_keeps_implicit_it_lambda_shorthand() {
    assert_eq!(
        formatter::format("urls = items.map(it.url)").unwrap(),
        "urls = items.map(it.url)\n"
    );
}

fn reformats_to_itself(source: &str) -> String {
    let once = formatter::format(source).unwrap();
    assert!(html_extractor::compile(&once).is_ok(), "formatted text must compile: {once}");
    assert_eq!(formatter::format(&once).unwrap(), once);
    once
}

#[test]
fn format_writes_conditionals_in_their_source_form() {
    assert_eq!(reformats_to_itself("v = a if c else b"), "v = a if c else b\n");
    assert_eq!(
        reformats_to_itself("v = (a if c else b) if d else e"),
        "v = (a if c else b) if d else e\n"
    );
    assert_eq!(
        reformats_to_itself("v = a if c else b if d else e"),
        "v = a if c else b if d else e\n"
    );
}

#[test]
fn format_parenthesizes_lambdas_with_several_parameters() {
    assert_eq!(
        reformats_to_itself("v = items.sort_by((a, b) => a < b)"),
        "v = items.sort_by((a, b) => a < b)\n"
    );
    assert_eq!(
        reformats_to_itself("v = items.map(x => x + 1)"),
        "v = items.map(x => x + 1)\n"
    );
}

#[test]
fn format_doubles_braces_in_interpolated_text() {
    assert_eq!(
        reformats_to_itself("v = f\"{{literal}} {name}\""),
        "v = f\"{{literal}} {name}\"\n"
    );
}
