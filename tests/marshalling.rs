use edge_workers::marshal::{check_status, flatten_headers, request_url, MarshalError};

fn pair(a: &str, b: &str) -> (String, String) {
    (a.to_string(), b.to_string())
}

#[test]
fn url_defaults_scheme_to_http() {
    assert_eq!(request_url(None, Some("x"), "/foo?a=1"), Ok("http://x/foo?a=1".to_string()));
}

#[test]
fn url_keeps_given_scheme() {
    assert_eq!(request_url(Some("https"), Some("example.com"), "/"), Ok("https://example.com/".to_string()));
}

#[test]
fn url_without_host_is_malformed() {
    assert_eq!(request_url(None, None, "/foo"), Err(MarshalError::MissingHost));
}

#[test]
fn repeated_headers_keep_last_value() {
    let flat = flatten_headers(&vec![pair("a", "1"), pair("b", "2"), pair("a", "3")]);
    assert_eq!(flat, vec![pair("a", "3"), pair("b", "2")]);
}

#[test]
fn no_headers_flatten_to_none() {
    assert_eq!(flatten_headers(&vec![]), vec![]);
}

#[test]
fn status_range_is_checked() {
    assert_eq!(check_status(200), Ok(200));
    assert_eq!(check_status(100), Ok(100));
    assert_eq!(check_status(599), Ok(599));
    assert_eq!(check_status(99), Err(MarshalError::InvalidStatus));
    assert_eq!(check_status(600), Err(MarshalError::InvalidStatus));
}

use edge_workers::config::{bucket_addressing, cwd_script, BucketAddressing};
use edge_workers::marshal::{header_flags, select_headers, to_native_response, JsResponse};

fn js(status: u16, headers: Vec<(String, String)>) -> JsResponse {
    JsResponse {
        headers,
        ok: status < 400,
        redirected: false,
        status,
        status_text: "OK".to_string(),
        body: b"hi".to_vec(),
    }
}

#[test]
fn response_keeps_status_body_and_valid_headers() {
    let r = to_native_response(js(
        200,
        vec![pair("content-type", "text/plain"), pair("bad name", "x"), pair("x-v", "a\u{7f}b")],
    ))
    .unwrap();
    assert_eq!(r.status, 200);
    assert_eq!(r.body, b"hi".to_vec());
    assert_eq!(r.headers, vec![pair("content-type", "text/plain")]);
}

#[test]
fn response_with_bad_status_is_refused() {
    assert!(matches!(to_native_response(js(700, vec![])), Err(MarshalError::InvalidStatus)));
    assert!(matches!(to_native_response(js(42, vec![])), Err(MarshalError::InvalidStatus)));
}

#[test]
fn header_flags_follow_http_rules() {
    let hs = vec![
        pair("x-app", "alpha"),
        pair("", "v"),
        pair("ok", "tab\there"),
        pair("ok", "line\nbreak"),
        pair("ok", "caf\u{e9}"),
        pair("Upper-Case", "v"),
    ];
    assert_eq!(header_flags(&hs), vec![true, false, true, false, true, true]);
}

#[test]
fn select_headers_keeps_flagged_pairs_in_order() {
    let hs = vec![pair("a", "1"), pair("b", "2"), pair("c", "3")];
    assert_eq!(select_headers(&hs, &vec![true, false, true]), vec![pair("a", "1"), pair("c", "3")]);
    assert_eq!(select_headers(&hs, &vec![false, false, false]), vec![]);
}

#[test]
fn cwd_script_names_directory() {
    assert_eq!(cwd_script("/tmp/w/3"), "window.cwd = \"/tmp/w/3\";");
}

#[test]
fn bucket_addressing_follows_endpoint() {
    match bucket_addressing("eu-west-1".to_string(), None) {
        BucketAddressing::Region { region } => assert_eq!(region, "eu-west-1"),
        BucketAddressing::PathStyle { .. } => panic!("expected region addressing"),
    }
    match bucket_addressing("local".to_string(), Some("http://minio:9000".to_string())) {
        BucketAddressing::PathStyle { region, endpoint } => {
            assert_eq!(region, "local");
            assert_eq!(endpoint, "http://minio:9000");
        }
        BucketAddressing::Region { .. } => panic!("expected path-style addressing"),
    }
}
