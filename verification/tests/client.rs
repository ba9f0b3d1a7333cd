use torn_client::{
    ApiKeyBalancing, DispatchStep, Error, RateLimitMode, TornClientBuilder, TornClientConfig,
};

#[test]
fn test_builder_single_key() {
    let client = TornClientBuilder::default()
        .api_key("test-key")
        .build()
        .unwrap();
    assert_eq!(client.key_count(), 1);
}

#[test]
fn test_builder_multiple_keys() {
    let client = TornClientBuilder::default()
        .api_key("key1")
        .api_key("key2")
        .api_key("key3")
        .build()
        .unwrap();
    assert_eq!(client.key_count(), 3);
}

#[test]
fn test_builder_no_keys_error() {
    let result = TornClientBuilder::default().build();
    assert!(matches!(result, Err(Error::NoKeys)));
}

#[test]
fn test_builder_with_config() {
    let client = TornClientBuilder::default()
        .api_key("test-key")
        .comment("my-app")
        .base_url("https://example.com/api")
        .verbose(true)
        .header("X-Custom", "value")
        .build()
        .unwrap();

    let config = client.config();
    assert_eq!(config.comment, Some("my-app".to_string()));
    assert_eq!(config.base_url, "https://example.com/api");
    assert!(config.verbose);
    assert_eq!(
        config
            .headers
            .iter()
            .find(|(k, _)| k == "X-Custom")
            .map(|(_, v)| v.clone()),
        Some("value".to_string())
    );
}

#[test]
fn test_header_overwrites_existing_name() {
    // Setting a header whose name is already configured replaces its
    // value; each name is sent at most once.
    let mut client = TornClientBuilder::default()
        .api_key("k")
        .header("X-Custom", "first")
        .header("X-Other", "kept")
        .header("X-Custom", "second")
        .rate_limit_mode(RateLimitMode::ThrowOnLimit)
        .build()
        .unwrap();

    let config = client.config();
    assert_eq!(
        config.headers,
        vec![
            ("X-Custom".to_string(), "second".to_string()),
            ("X-Other".to_string(), "kept".to_string()),
        ]
    );

    let step = client.begin_request("/user", &vec![], 0);
    let plan = match step {
        DispatchStep::Send(plan) => plan,
        _ => panic!("expected a send plan"),
    };
    let customs: Vec<&(String, String)> = plan
        .headers
        .iter()
        .filter(|(name, _)| name == "X-Custom")
        .collect();
    assert_eq!(customs.len(), 1);
    assert_eq!(customs[0].1, "second");
}

#[test]
fn test_builder_api_keys_replaces() {
    let client = TornClientBuilder::default()
        .api_key("old")
        .api_keys(vec!["key1".to_string(), "key2".to_string()])
        .build()
        .unwrap();
    assert_eq!(client.key_count(), 2);
}

#[test]
fn test_begin_request_send_plan() {
    let mut client = TornClientBuilder::default()
        .api_key("secret-key-1")
        .comment("my-app")
        .header("X-Custom", "value")
        .rate_limit_mode(RateLimitMode::ThrowOnLimit)
        .build()
        .unwrap();

    let params = vec![
        ("key".to_string(), "x".to_string()),
        ("comment".to_string(), "y".to_string()),
        ("id".to_string(), "5".to_string()),
    ];
    let step = client.begin_request("/user", &params, 0);
    let plan = match step {
        DispatchStep::Send(plan) => plan,
        _ => panic!("expected a send plan"),
    };

    // Reserved parameters never reach the URL; the caller's id and the
    // configured comment do.
    assert_eq!(
        plan.url,
        "https://api.torn.com/v2/user?id=5&comment=my-app"
    );
    assert!(!plan.url.contains("key="));
    assert!(!plan.url.contains("comment=y"));

    // The credential travels as a header, alongside the static headers.
    assert_eq!(plan.api_key, "secret-key-1");
    assert_eq!(
        plan.headers,
        vec![
            (
                "Authorization".to_string(),
                "ApiKey secret-key-1".to_string()
            ),
            ("Accept".to_string(), "application/json".to_string()),
            ("X-Custom".to_string(), "value".to_string()),
        ]
    );
}

#[test]
fn test_begin_request_throw_on_limit_fails_fast() {
    let mut client = TornClientBuilder::default()
        .api_key("only-key")
        .rate_limit_mode(RateLimitMode::ThrowOnLimit)
        .build()
        .unwrap();

    for _ in 0..100 {
        // Exhaust the single credential.
        let step = client.begin_request("/user", &vec![], 0);
        match step {
            DispatchStep::Send(plan) => {
                let r = client.finish_request(&plan.api_key, 200, "{}", None, 0);
                assert!(r.is_ok());
            }
            _ => panic!("expected a send plan while under the limit"),
        }
    }

    match client.begin_request("/user", &vec![], 0) {
        DispatchStep::Fail(Error::RateLimited) => {}
        _ => panic!("expected RateLimited"),
    }
}

#[test]
fn test_throw_on_limit_spreads_to_other_keys() {
    // Pool of 3 credentials, ThrowOnLimit, credential #1 filled to 100
    // requests: acquisition returns #2 or #3, never #1, and never fails.
    let mut client = TornClientBuilder::default()
        .api_keys(vec!["k1".to_string(), "k2".to_string(), "k3".to_string()])
        .rate_limit_mode(RateLimitMode::ThrowOnLimit)
        .build()
        .unwrap();

    for _ in 0..100 {
        let r = client.finish_request("k1", 200, "{}", None, 0);
        assert!(r.is_ok());
    }

    for _ in 0..50 {
        match client.begin_request("/user", &vec![], 0) {
            DispatchStep::Send(plan) => {
                assert!(plan.api_key == "k2" || plan.api_key == "k3");
            }
            _ => panic!("acquisition must not fail while other keys are free"),
        }
    }
}

#[test]
fn test_finish_request_status_precedence() {
    let mut client = TornClientBuilder::default()
        .api_key("k")
        .rate_limit_mode(RateLimitMode::ThrowOnLimit)
        .build()
        .unwrap();

    // Non-success status wins over everything.
    let r = client.finish_request("k", 500, r#"{"error":{"code":1,"error":"x"}}"#, None, 0);
    match r {
        Err(Error::Request(m)) => assert_eq!(m, "HTTP 500 from API"),
        _ => panic!("expected a status failure"),
    }

    // The error envelope wins over a successful decode.
    let r = client.finish_request("k", 200, r#"{"error":{"code":2,"error":"Incorrect ID"}}"#, None, 0);
    match r {
        Err(Error::Api { code, message }) => {
            assert_eq!(code, 2);
            assert_eq!(message, "Incorrect ID");
        }
        _ => panic!("expected an API error"),
    }

    // A failed decode of a clean body is a JSON failure.
    let r = client.finish_request(
        "k",
        200,
        "{}",
        Some("missing field `name`".to_string()),
        0,
    );
    match r {
        Err(Error::Json(m)) => assert_eq!(m, "missing field `name`"),
        _ => panic!("expected a JSON failure"),
    }
}

#[test]
fn test_finish_request_records_usage_only_on_success() {
    let mut client = TornClientBuilder::default()
        .api_key("k")
        .rate_limit_mode(RateLimitMode::ThrowOnLimit)
        .build()
        .unwrap();

    // Failures record nothing.
    let _ = client.finish_request("k", 500, "{}", None, 0);
    let _ = client.finish_request("k", 200, r#"{"error":{"code":9,"error":"e"}}"#, None, 0);
    let _ = client.finish_request("k", 200, "{}", Some("bad".to_string()), 0);

    // 100 successes fill the window exactly.
    for _ in 0..100 {
        client.finish_request("k", 200, "{}", None, 0).unwrap();
    }
    assert!(matches!(
        client.begin_request("/user", &vec![], 0),
        DispatchStep::Fail(Error::RateLimited)
    ));
}

#[test]
fn test_begin_request_auto_delay_waits() {
    let mut client = TornClientBuilder::default()
        .api_key("k")
        .rate_limit_mode(RateLimitMode::AutoDelay)
        .build()
        .unwrap();

    for _ in 0..100 {
        client.finish_request("k", 200, "{}", None, 1_000).unwrap();
    }

    let wait = match client.begin_request("/user", &vec![], 1_000) {
        DispatchStep::Wait(d) => d,
        _ => panic!("expected a wait"),
    };
    assert_eq!(wait, 60_100);

    // After waiting as advised, the attempt is admitted.
    assert!(matches!(
        client.begin_request("/user", &vec![], 1_000 + wait),
        DispatchStep::Send(_)
    ));
}

#[test]
fn test_config_defaults() {
    let config = TornClientConfig::default();
    assert!(config.api_keys.is_empty());
    assert!(matches!(config.rate_limit_mode, RateLimitMode::AutoDelay));
    assert!(matches!(
        config.api_key_balancing,
        ApiKeyBalancing::RoundRobin
    ));
    assert_eq!(config.comment, None);
    assert!(config.headers.is_empty());
    assert_eq!(config.base_url, "https://api.torn.com/v2");
    assert!(!config.verbose);
}
