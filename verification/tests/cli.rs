use html_extractor::cli::{
    CliError, compile_source, file_error, format_source, request_hash, stream_error, update_hash,
};
use html_extractor::runtime::HttpRequest;

#[test]
fn request_hash_is_fnv1a_of_method_url_content_type_and_body() {
    let get = HttpRequest::get("https://example.test/", None);
    assert_eq!(request_hash(&get), 7653583219936480969);

    let post = HttpRequest::post(
        "https://example.test/api",
        Some(b"{\"a\":1}".to_vec()),
        None,
        Some("application/json".to_owned()),
    );
    assert_eq!(request_hash(&post), 10612454953342333736);
}

#[test]
fn hashing_in_pieces_equals_hashing_the_whole() {
    let mut whole = 0xcbf29ce484222325_u64;
    update_hash(&mut whole, b"GEThttps://example.test/");
    let mut pieces = 0xcbf29ce484222325_u64;
    update_hash(&mut pieces, b"GET");
    update_hash(&mut pieces, b"https://example.test/");
    assert_eq!(whole, pieces);
    assert_eq!(whole, 7653583219936480969);

    let mut empty = 0xcbf29ce484222325_u64;
    update_hash(&mut empty, b"");
    assert_eq!(empty, 14695981039346656037);
}

#[test]
fn cli_errors_carry_message_and_exit_code() {
    let error = CliError::stdin("broken pipe");
    assert_eq!(error.message(), "stdin: error: failed to read input: broken pipe");
    assert_eq!(error.exit_code(), 1);

    let error = stream_error("stdout", "closed");
    assert_eq!(error.message(), "stdout: error: failed to write output: closed");
    assert_eq!(error.exit_code(), 1);

    assert_eq!(
        file_error("missing.extractor", "test path does not exist"),
        "missing.extractor: error: test path does not exist"
    );
    assert_eq!(CliError::new("usage".to_owned(), 2).exit_code(), 2);
}

#[test]
fn failed_compiles_render_every_diagnostic_with_its_location() {
    let error = compile_source("page.extractor", "a = 1\nreturn 2\nbreak").unwrap_err();
    assert_eq!(
        error.message(),
        "page.extractor:2:1: error: `return` is only valid inside a function\npage.extractor:3:1: error: `break` is only valid inside a loop"
    );
    assert_eq!(error.exit_code(), 1);

    let program = compile_source("page.extractor", "title = html.css(\"h1\")!.text()").unwrap();
    assert_eq!(program.requirements().inputs()[0].name(), "html");
}

#[test]
fn format_source_prints_the_canonical_text_or_the_rendered_errors() {
    assert_eq!(format_source("a.extractor", "x=1").unwrap(), "x = 1\n");
    let error = format_source("a.extractor", "x = it").unwrap_err();
    assert_eq!(
        error.message(),
        "a.extractor:1:5: error: `it` is only available inside functional blocks"
    );
}

#[test]
fn cached_responses_round_trip_through_persistent_files() {
    let response = html_extractor::runtime::Response::new(
        200,
        "https://example.test/final",
        b"ok".to_vec(),
    );

    let bytes = html_extractor::cli::cached_response_bytes(&response).unwrap();
    let cached = html_extractor::cli::cached_response_from_bytes(&bytes).unwrap();

    assert_eq!(cached.status(), 200);
    assert_eq!(cached.url(), "https://example.test/final");
    assert_eq!(cached.body(), b"ok");
}

#[test]
fn cached_responses_are_written_as_status_url_and_body_bytes() {
    let response = html_extractor::runtime::Response::new(404, "https://a.test/", vec![0, 255]);
    let bytes = html_extractor::cli::cached_response_bytes(&response).unwrap();
    assert_eq!(
        String::from_utf8(bytes).unwrap(),
        r#"{"status":404,"url":"https://a.test/","body":[0,255]}"#
    );
}

#[test]
fn cached_responses_that_cannot_be_read_say_why() {
    let read = |text: &str| {
        let error = html_extractor::cli::cached_response_from_bytes(text.as_bytes()).unwrap_err();
        assert_eq!(error.span(), None);
        error.message().to_owned()
    };
    assert!(read("{").starts_with("failed to parse cached response: "));
    assert_eq!(read("[]"), "cached response status is invalid");
    assert_eq!(read(r#"{"status":70000,"url":"u","body":[]}"#), "cached response status is invalid");
    assert_eq!(read(r#"{"status":200,"url":1,"body":[]}"#), "cached response url is invalid");
    assert_eq!(read(r#"{"status":200,"url":"u","body":"x"}"#), "cached response body is invalid");
    assert_eq!(
        read(r#"{"status":200,"url":"u","body":[1,256]}"#),
        "cached response body byte is invalid"
    );
    let ok = html_extractor::cli::cached_response_from_bytes(br#"{"body":[7],"url":"u","status":201}"#)
        .unwrap();
    assert_eq!((ok.status(), ok.url(), ok.body()), (201, "u", &[7u8][..]));
}

#[test]
fn unreadable_variables_exit_with_status_two() {
    let error = html_extractor::cli::variable_error(html_extractor::input::InputError(
        "invalid --variables: expected a JSON object".to_owned(),
    ));
    assert_eq!(error.exit_code(), 2);
    assert_eq!(error.message(), "invalid --variables: expected a JSON object");
}
