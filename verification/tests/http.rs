use html_extractor::runtime::{
    CloudflareBypass, ExecutionError, HttpMethod, HttpPolicy, HttpRequest, parse_bypass_output,
};

#[test]
fn parses_bypass_stdout_as_cookie_then_user_agent() {
    let output = parse_bypass_output(b"clearance-token\nMozilla/5.0 Test\n").unwrap();

    assert_eq!(
        output,
        CloudflareBypass {
            cf_clearance: "clearance-token".to_string(),
            user_agent: "Mozilla/5.0 Test".to_string(),
        }
    );
}

#[test]
fn bypass_output_lines_are_trimmed_and_crlf_tolerant() {
    let output = parse_bypass_output(b"  token \r\n\tagent string  \r\n").unwrap();

    assert_eq!(output.cf_clearance, "token");
    assert_eq!(output.user_agent, "agent string");
}

#[test]
fn bypass_output_requires_both_lines() {
    let error = parse_bypass_output(b"only-one-line\n").unwrap_err();

    assert_eq!(
        error.message(),
        "Cloudflare bypass output must contain cf_clearance and user agent"
    );
    assert_eq!(error.span(), None);
}

#[test]
fn bypass_output_must_be_utf8() {
    let error = parse_bypass_output(&[0xff, 0x0a, 0x41]).unwrap_err();

    assert!(error.message().starts_with("Cloudflare bypass output is not UTF-8: "));
}

#[test]
fn default_policy_allows_http_and_https_up_to_eight_mebibytes() {
    let policy = HttpPolicy::default();

    assert!(policy.validate_url("https://example.test/a").is_ok());
    assert!(policy.validate_url("http://example.test/a").is_ok());
    assert!(policy.validate_response(&vec![0u8; 8 * 1024 * 1024]).is_ok());
    let error = policy.validate_response(&vec![0u8; 8 * 1024 * 1024 + 1]).unwrap_err();
    assert_eq!(error.message(), "response body exceeds 8388608 byte limit");
}

#[test]
fn policy_rejects_disallowed_schemes_and_invalid_urls() {
    let policy = HttpPolicy::default().allow_schemes(vec!["https".to_string(), "https".to_string()]);

    assert!(policy.validate_url("https://example.test").is_ok());
    let error = policy.validate_url("http://example.test").unwrap_err();
    assert_eq!(error.message(), "URL scheme `http` is not allowed");
    let error = policy.validate_url("not a url").unwrap_err();
    assert!(error.message().starts_with("invalid URL: "));
}

#[test]
fn policy_limit_can_be_lowered() {
    let policy = HttpPolicy::default().max_response_bytes(3);

    assert!(policy.validate_response(b"abc").is_ok());
    assert_eq!(
        policy.validate_response(b"abcd").unwrap_err(),
        ExecutionError::new("response body exceeds 3 byte limit", None)
    );
}

#[test]
fn requests_record_method_body_and_cloudflare_flag() {
    let get = HttpRequest::get("https://example.test", None);
    assert_eq!(get.method(), HttpMethod::Get);
    assert_eq!(get.url(), "https://example.test");
    assert_eq!(get.body(), None);
    assert!(!get.cloudflare());

    let post = HttpRequest::post(
        "https://example.test/form",
        Some(b"a=1".to_vec()),
        None,
        Some("application/x-www-form-urlencoded".to_string()),
    )
    .with_cloudflare(true);
    assert_eq!(post.method(), HttpMethod::Post);
    assert_eq!(post.body(), Some(&b"a=1"[..]));
    assert_eq!(post.content_type(), Some("application/x-www-form-urlencoded"));
    assert!(post.cloudflare());
}

#[test]
fn response_can_carry_headers() {
    let response = html_extractor::runtime::Response::new_with_headers(
        200,
        "https://test",
        b"body".to_vec(),
        vec![("set-cookie".to_string(), "a=b; Path=/".to_string())],
    );

    assert_eq!(
        response.headers(),
        &[("set-cookie".to_string(), "a=b; Path=/".to_string())]
    );
}
