use html_extractor::cloudflare::{
    CloudflareStore, domain_key, is_cloudflare_challenge, parse_set_cookie, to_ascii_lowercase,
};
use html_extractor::runtime::Response;

#[test]
fn cloudflare_challenge_detection_uses_fixed_prefix_buffer() {
    let challenge =
        b"<!DOCTYPE html><html lang=\"en-US\"><head><title>Just a moment...</title><meta";
    assert!(is_cloudflare_challenge(challenge));
    assert!(!is_cloudflare_challenge(
        b"<html><head><title>Just a moment...</title>"
    ));

    let mut late_title = b"<!DOCTYPE html>".to_vec();
    late_title.extend(vec![b' '; 600]);
    late_title.extend(b"<title>Just a moment...</title>");
    assert!(!is_cloudflare_challenge(&late_title));
}

#[test]
fn challenge_title_may_end_exactly_at_the_window() {
    let mut body = b"<!DOCTYPE html>".to_vec();
    body.extend(vec![b' '; 512 - 15 - 31]);
    body.extend(b"<title>Just a moment...</title>");
    assert_eq!(body.len(), 512);
    assert!(is_cloudflare_challenge(&body));
    body.insert(15, b' ');
    assert!(!is_cloudflare_challenge(&body));
    assert!(!is_cloudflare_challenge(b""));
}

#[test]
fn set_cookie_headers_give_their_first_pair() {
    assert_eq!(
        parse_set_cookie("cf_clearance=abc; Path=/; HttpOnly"),
        Some(("cf_clearance".to_owned(), "abc".to_owned()))
    );
    assert_eq!(
        parse_set_cookie("  session = a=b ; Secure"),
        Some(("session ".to_owned(), " a=b".to_owned()))
    );
    assert_eq!(parse_set_cookie("=value"), None);
    assert_eq!(parse_set_cookie("no-equals; Path=/"), None);
    assert_eq!(parse_set_cookie("empty="), Some(("empty".to_owned(), String::new())));
}

#[test]
fn domain_keys_are_lower_case_hosts() {
    assert_eq!(domain_key("https://Fixture.TEST/items").unwrap(), "fixture.test");
    assert_eq!(
        domain_key("not a url").unwrap_err().message(),
        "invalid URL: relative URL without a base"
    );
    assert_eq!(domain_key("data:text/plain,hi").unwrap_err().message(), "URL has no host");
    assert_eq!(to_ascii_lowercase("MiXeD-Ä"), "mixed-Ä");
}

#[test]
fn store_keeps_user_agent_and_cookies_by_domain() {
    let mut store = CloudflareStore::new();
    assert_eq!(store.user_agent("https://fixture.test/").unwrap(), None);
    store
        .set_bypass("https://fixture.test/items", "Mozilla/5.0 Test", "clearance-token")
        .unwrap();
    assert_eq!(
        store.user_agent("https://fixture.test/other").unwrap().unwrap(),
        "Mozilla/5.0 Test"
    );
    assert_eq!(
        store.cookie_header("https://FIXTURE.test/other").unwrap().unwrap(),
        "cf_clearance=clearance-token"
    );
    assert_eq!(store.cookie_header("https://elsewhere.test/").unwrap(), None);
}

#[test]
fn challenge_responses_clear_the_request_domain() {
    let mut store = CloudflareStore::new();
    store.set_bypass("https://fixture.test/items", "ua", "old").unwrap();
    let challenge = Response::new_with_headers(
        403,
        "https://fixture.test/items",
        b"<!DOCTYPE html><html><head><title>Just a moment...</title>".to_vec(),
        vec![("set-cookie".to_string(), "cf_clearance=bad; Path=/".to_string())],
    );
    store
        .store_response_cookies("https://fixture.test/items", &challenge)
        .unwrap();
    assert!(store.cookie_header("https://fixture.test/items").unwrap().is_none());
    assert!(store.user_agent("https://fixture.test/items").unwrap().is_none());
}

#[test]
fn other_responses_record_their_cookies_in_name_order() {
    let mut store = CloudflareStore::new();
    store.set_bypass("https://fixture.test/items", "ua", "old").unwrap();
    let response = Response::new_with_headers(
        200,
        "https://fixture.test/items",
        b"ok".to_vec(),
        vec![
            ("Set-Cookie".to_string(), "session=abc; Path=/".to_string()),
            ("content-type".to_string(), "a=b".to_string()),
            ("set-cookie".to_string(), "cf_clearance=new; Path=/".to_string()),
        ],
    );
    store
        .store_response_cookies("https://fixture.test/items", &response)
        .unwrap();
    assert_eq!(
        store.cookie_header("https://fixture.test/items").unwrap().unwrap(),
        "cf_clearance=new; session=abc"
    );
    assert_eq!(store.user_agent("https://fixture.test/").unwrap().unwrap(), "ua");
}

#[test]
fn responses_decode_text_and_rename_noscript_for_html() {
    let response = Response::new(200, "https://fixture.test/", b"<noscript>x</noscript>".to_vec());
    assert_eq!(response.status(), 200);
    assert_eq!(response.text().unwrap(), "<noscript>x</noscript>");
    assert_eq!(
        response.html().unwrap().source(),
        "<notscript>x</notscript>"
    );
    let broken = Response::new(200, "https://fixture.test/", vec![0xff, 0x41]);
    assert_eq!(
        broken.text().unwrap_err().message(),
        "response is not UTF-8: invalid utf-8 sequence of 1 bytes from index 0"
    );
}

fn reload(store: &html_extractor::cloudflare::CloudflareStore) -> html_extractor::cloudflare::CloudflareStore {
    let bytes = store.to_bytes().unwrap();
    html_extractor::cloudflare::CloudflareStore::from_bytes(&bytes).unwrap()
}

#[test]
fn cloudflare_store_persists_user_agent_and_cookies_by_domain() {
    let mut store = html_extractor::cloudflare::CloudflareStore::new();
    store
        .set_bypass("https://fixture.test/items", "Mozilla/5.0 Test", "clearance-token")
        .unwrap();

    let store = reload(&store);

    assert_eq!(
        store.user_agent("https://fixture.test/other").unwrap().unwrap(),
        "Mozilla/5.0 Test"
    );
    assert_eq!(
        store.cookie_header("https://fixture.test/other").unwrap().unwrap(),
        "cf_clearance=clearance-token"
    );
}

#[test]
fn cloudflare_store_skips_challenge_set_cookie_and_clears_domain() {
    let mut store = html_extractor::cloudflare::CloudflareStore::new();
    store.set_bypass("https://fixture.test/items", "ua", "old").unwrap();
    let challenge = html_extractor::runtime::Response::new_with_headers(
        403,
        "https://fixture.test/items",
        b"<!DOCTYPE html><html><head><title>Just a moment...</title>".to_vec(),
        vec![("set-cookie".to_string(), "cf_clearance=bad; Path=/".to_string())],
    );

    store
        .store_response_cookies("https://fixture.test/items", &challenge)
        .unwrap();

    assert!(store.cookie_header("https://fixture.test/items").unwrap().is_none());
}

#[test]
fn cloudflare_store_updates_set_cookie_for_non_challenge_response() {
    let mut store = html_extractor::cloudflare::CloudflareStore::new();
    store.set_bypass("https://fixture.test/items", "ua", "old").unwrap();
    let response = html_extractor::runtime::Response::new_with_headers(
        200,
        "https://fixture.test/items",
        b"ok".to_vec(),
        vec![
            ("set-cookie".to_string(), "cf_clearance=new; Path=/".to_string()),
            ("set-cookie".to_string(), "session=abc; Path=/".to_string()),
        ],
    );

    store
        .store_response_cookies("https://fixture.test/items", &response)
        .unwrap();
    let store = reload(&store);

    assert_eq!(
        store.cookie_header("https://fixture.test/items").unwrap().unwrap(),
        "cf_clearance=new; session=abc"
    );
}

#[test]
fn store_files_are_pretty_json_by_domain() {
    let mut store = html_extractor::cloudflare::CloudflareStore::new();
    store.set_bypass("https://b.test/", "ua", "token").unwrap();
    let text = String::from_utf8(store.to_bytes().unwrap()).unwrap();
    assert_eq!(
        text,
        "{\n  \"b.test\": {\n    \"user_agent\": \"ua\",\n    \"cookies\": {\n      \"cf_clearance\": \"token\"\n    }\n  }\n}"
    );
}

#[test]
fn store_files_keep_only_what_they_can_read() {
    let store = html_extractor::cloudflare::CloudflareStore::from_bytes(
        br#"{"z.test":{"user_agent":5,"cookies":{"b":"2","a":"1","n":3}},"a.test":[]}"#,
    )
    .unwrap();
    assert_eq!(store.user_agent("https://z.test/").unwrap(), None);
    assert_eq!(
        store.cookie_header("https://z.test/").unwrap().unwrap(),
        "a=1; b=2"
    );
    assert_eq!(store.cookie_header("https://a.test/").unwrap(), None);

    let empty = html_extractor::cloudflare::CloudflareStore::from_bytes(b"[1]").unwrap();
    assert_eq!(empty.cookie_header("https://z.test/").unwrap(), None);

    let error = html_extractor::cloudflare::CloudflareStore::from_bytes(b"{").unwrap_err();
    assert!(error
        .message()
        .starts_with("failed to parse Cloudflare cookie store: "));
}
