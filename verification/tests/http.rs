use torn_client::http::{build_url, classify_response};
use torn_client::Error;

fn params(pairs: &[(&str, &str)]) -> Vec<(String, String)> {
    pairs
        .iter()
        .map(|(k, v)| (k.to_string(), v.to_string()))
        .collect()
}

#[test]
fn test_build_url_no_params() {
    let url = build_url("https://api.torn.com/v2", "/user", &params(&[]), &None);
    assert_eq!(url, "https://api.torn.com/v2/user");
}

#[test]
fn test_build_url_with_params() {
    let url = build_url(
        "https://api.torn.com/v2",
        "/user",
        &params(&[("id", "123")]),
        &None,
    );
    assert_eq!(url, "https://api.torn.com/v2/user?id=123");
}

#[test]
fn test_build_url_filters_key_and_comment() {
    let url = build_url(
        "https://api.torn.com/v2",
        "/user",
        &params(&[
            ("id", "123"),
            ("key", "should-be-filtered"),
            ("comment", "should-be-filtered"),
        ]),
        &None,
    );
    assert_eq!(url, "https://api.torn.com/v2/user?id=123");
}

#[test]
fn test_build_url_appends_comment() {
    let url = build_url(
        "https://api.torn.com/v2",
        "/user",
        &params(&[("id", "123")]),
        &Some("my-app".to_string()),
    );
    assert_eq!(url, "https://api.torn.com/v2/user?id=123&comment=my-app");
}

#[test]
fn test_build_url_custom_base_url() {
    let url = build_url("https://example.com/api", "/user", &params(&[]), &None);
    assert_eq!(url, "https://example.com/api/user");
}

#[test]
fn test_build_url_encodes_special_chars() {
    let url = build_url(
        "https://api.torn.com/v2",
        "/user",
        &params(&[("name", "test user")]),
        &None,
    );
    assert_eq!(url, "https://api.torn.com/v2/user?name=test%20user");
}

#[test]
fn test_classify_response_status_error() {
    let r = classify_response(403, "irrelevant");
    match r {
        Err(Error::Request(m)) => assert_eq!(m, "HTTP 403 from API"),
        _ => panic!("expected a status failure"),
    }
}

#[test]
fn test_classify_response_api_error() {
    let body = r#"{"error": {"code": 2, "error": "Incorrect ID"}}"#;
    let r = classify_response(200, body);
    match r {
        Err(Error::Api { code, message }) => {
            assert_eq!(code, 2);
            assert_eq!(message, "Incorrect ID");
        }
        _ => panic!("expected an API error"),
    }
}

#[test]
fn test_classify_response_error_precedence() {
    // A body matching the error envelope shape yields the API error even
    // though it would also decode as an ordinary object.
    let body = r#"{"error": {"code": 6, "error": "Wrong ID"}, "name": "x", "level": 3}"#;
    match classify_response(200, body) {
        Err(Error::Api { code, message }) => {
            assert_eq!(code, 6);
            assert_eq!(message, "Wrong ID");
        }
        _ => panic!("the envelope must take precedence"),
    }
    // And the status check comes before the envelope.
    assert!(matches!(
        classify_response(500, body),
        Err(Error::Request(_))
    ));
}

#[test]
fn test_classify_response_plain_success() {
    assert!(classify_response(200, r#"{"name": "x"}"#).is_ok());
    assert!(classify_response(299, "not even json").is_ok());
    // A body whose "error" member lacks the envelope fields is no envelope.
    assert!(classify_response(200, r#"{"error": "just a string"}"#).is_ok());
}

#[test]
fn test_error_describe() {
    assert_eq!(Error::RateLimited.describe(), "Rate limit exceeded");
    assert_eq!(Error::NoKeys.describe(), "No API keys configured");
    assert_eq!(
        Error::Request("HTTP 500 from API".to_string()).describe(),
        "Request failed: HTTP 500 from API"
    );
    assert_eq!(
        Error::Api {
            code: 2,
            message: "Incorrect ID".to_string()
        }
        .describe(),
        "API error: Incorrect ID"
    );
    assert_eq!(Error::Http("timed out".to_string()).describe(), "HTTP error: timed out");
    assert_eq!(Error::Json("bad shape".to_string()).describe(), "JSON error: bad shape");
}
