use torn_client::pagination::parse_metadata;
use torn_client::pagination::parse_pagination_url;
use torn_client::{Error, PaginatedResponse, PaginationLinks, PaginationMetadata};

#[test]
fn test_parse_pagination_url_basic() {
    let url = "https://api.torn.com/v2/user/attacks?limit=25&cursor=abc123";
    let (path, params) = parse_pagination_url(url).unwrap();

    assert_eq!(path, "/user/attacks");
    assert_eq!(params.len(), 2);
    assert!(params.iter().any(|(k, v)| k == "limit" && v == "25"));
    assert!(params.iter().any(|(k, v)| k == "cursor" && v == "abc123"));
}

#[test]
fn test_parse_pagination_url_strips_v2() {
    let url = "https://api.torn.com/v2/faction/123/members?sort=DESC";
    let (path, params) = parse_pagination_url(url).unwrap();

    assert_eq!(path, "/faction/123/members");
    assert_eq!(params.len(), 1);
    assert!(params.iter().any(|(k, v)| k == "sort" && v == "DESC"));
}

#[test]
fn test_parse_pagination_url_no_query() {
    let url = "https://api.torn.com/v2/user";
    let (path, params) = parse_pagination_url(url).unwrap();

    assert_eq!(path, "/user");
    assert!(params.is_empty());
}

#[test]
fn test_parse_pagination_url_no_v2_prefix() {
    let url = "https://api.torn.com/user/attacks?limit=25";
    let (path, params) = parse_pagination_url(url).unwrap();

    assert_eq!(path, "/user/attacks");
    assert_eq!(params.len(), 1);
    assert!(params.iter().any(|(k, v)| k == "limit" && v == "25"));
}

#[test]
fn test_parse_pagination_url_encoded_params() {
    let url = "https://api.torn.com/v2/user?name=test%20user&value=100%25";
    let (path, params) = parse_pagination_url(url).unwrap();

    assert_eq!(path, "/user");
    assert_eq!(params.len(), 2);
    assert!(params.iter().any(|(k, v)| k == "name" && v == "test user"));
    assert!(params.iter().any(|(k, v)| k == "value" && v == "100%"));
}

#[test]
fn test_parse_pagination_url_invalid() {
    let url = "not a valid url";
    let result = parse_pagination_url(url);

    assert!(result.is_err());
    match result {
        Err(Error::Request(msg)) => {
            assert!(msg.contains("Invalid pagination URL"));
        }
        _ => panic!("Expected Request error"),
    }
}

#[test]
fn test_pagination_metadata_has_next() {
    let metadata = PaginationMetadata {
        links: PaginationLinks {
            next: Some("https://api.torn.com/v2/user/attacks?cursor=abc".to_string()),
            previous: None,
        },
    };

    assert!(metadata.links.next.is_some());
    assert!(metadata.links.previous.is_none());
}

#[test]
fn test_pagination_metadata_has_prev() {
    let metadata = PaginationMetadata {
        links: PaginationLinks {
            next: None,
            previous: Some("https://api.torn.com/v2/user/attacks?cursor=xyz".to_string()),
        },
    };

    assert!(metadata.links.next.is_none());
    assert!(metadata.links.previous.is_some());
}

#[test]
fn test_pagination_metadata_has_both() {
    let metadata = PaginationMetadata {
        links: PaginationLinks {
            next: Some("https://api.torn.com/v2/user/attacks?cursor=next".to_string()),
            previous: Some("https://api.torn.com/v2/user/attacks?cursor=prev".to_string()),
        },
    };

    assert!(metadata.links.next.is_some());
    assert!(metadata.links.previous.is_some());
}

#[test]
fn test_pagination_metadata_has_neither() {
    let metadata = PaginationMetadata {
        links: PaginationLinks {
            next: None,
            previous: None,
        },
    };

    assert!(metadata.links.next.is_none());
    assert!(metadata.links.previous.is_none());
}

#[test]
fn test_has_next_with_url() {
    let metadata = Some(PaginationMetadata {
        links: PaginationLinks {
            next: Some("https://api.torn.com/v2/user/attacks?cursor=abc".to_string()),
            previous: None,
        },
    });

    let response: PaginatedResponse<()> = PaginatedResponse::new((), metadata);

    assert!(response.has_next());
    assert!(!response.has_prev());
    assert!(response.has_next_page());
    assert!(!response.has_previous_page());
}

#[test]
fn test_has_prev_with_url() {
    let metadata = Some(PaginationMetadata {
        links: PaginationLinks {
            next: None,
            previous: Some("https://api.torn.com/v2/user/attacks?cursor=xyz".to_string()),
        },
    });

    let response: PaginatedResponse<()> = PaginatedResponse::new((), metadata);

    assert!(!response.has_next());
    assert!(response.has_prev());
    assert!(!response.has_next_page());
    assert!(response.has_previous_page());
}

#[test]
fn test_has_both_urls() {
    let metadata = Some(PaginationMetadata {
        links: PaginationLinks {
            next: Some("https://api.torn.com/v2/user/attacks?cursor=next".to_string()),
            previous: Some("https://api.torn.com/v2/user/attacks?cursor=prev".to_string()),
        },
    });

    let response: PaginatedResponse<()> = PaginatedResponse::new((), metadata);

    assert!(response.has_next());
    assert!(response.has_prev());
}

#[test]
fn test_has_neither_url() {
    let metadata = Some(PaginationMetadata {
        links: PaginationLinks {
            next: None,
            previous: None,
        },
    });

    let response: PaginatedResponse<()> = PaginatedResponse::new((), metadata);

    assert!(!response.has_next());
    assert!(!response.has_prev());
}

#[test]
fn test_no_metadata() {
    let response: PaginatedResponse<()> = PaginatedResponse::new((), None);

    assert!(!response.has_next());
    assert!(!response.has_prev());
}

#[test]
fn test_next_url() {
    let metadata = Some(PaginationMetadata {
        links: PaginationLinks {
            next: Some("https://api.torn.com/v2/user/attacks?cursor=abc".to_string()),
            previous: None,
        },
    });

    let response: PaginatedResponse<()> = PaginatedResponse::new((), metadata);

    assert_eq!(
        response.next_url(),
        Some("https://api.torn.com/v2/user/attacks?cursor=abc")
    );
    assert_eq!(response.prev_url(), None);
}

#[test]
fn test_prev_url() {
    let metadata = Some(PaginationMetadata {
        links: PaginationLinks {
            next: None,
            previous: Some("https://api.torn.com/v2/user/attacks?cursor=xyz".to_string()),
        },
    });

    let response: PaginatedResponse<()> = PaginatedResponse::new((), metadata);

    assert_eq!(response.next_url(), None);
    assert_eq!(
        response.prev_url(),
        Some("https://api.torn.com/v2/user/attacks?cursor=xyz")
    );
}

#[test]
fn test_parse_metadata_extracts_links() {
    let body = r#"{"attacks": [], "_metadata": {"links": {"next": "https://api.torn.com/v2/user/attacks?cursor=n", "prev": "https://api.torn.com/v2/user/attacks?cursor=p"}}}"#;
    let metadata = parse_metadata(body).expect("metadata present");
    assert_eq!(
        metadata.links.next.as_deref(),
        Some("https://api.torn.com/v2/user/attacks?cursor=n")
    );
    assert_eq!(
        metadata.links.previous.as_deref(),
        Some("https://api.torn.com/v2/user/attacks?cursor=p")
    );
}

#[test]
fn test_parse_metadata_absent() {
    assert!(parse_metadata(r#"{"attacks": []}"#).is_none());
    assert!(parse_metadata("not json at all").is_none());
}

#[test]
fn test_next_request_round_trip() {
    // A response carrying a next link yields the dispatcher-level request
    // for the following page: version prefix stripped, cursor preserved.
    let metadata = Some(PaginationMetadata {
        links: PaginationLinks {
            next: Some("https://api.torn.com/v2/user/attacks?cursor=abc".to_string()),
            previous: None,
        },
    });
    let response: PaginatedResponse<()> = PaginatedResponse::new((), metadata);
    assert!(response.has_next());

    let (path, params) = response.next_request().unwrap().expect("next page");
    assert_eq!(path, "/user/attacks");
    assert_eq!(params, vec![("cursor".to_string(), "abc".to_string())]);

    // And without a link there is nothing to fetch.
    assert!(response.prev_request().unwrap().is_none());
}

#[test]
fn test_page_stream_yields_until_terminal() {
    let first: PaginatedResponse<u32> = PaginatedResponse::new(
        1,
        Some(PaginationMetadata {
            links: PaginationLinks {
                next: Some("https://api.torn.com/v2/items?cursor=2".to_string()),
                previous: None,
            },
        }),
    );
    let second: PaginatedResponse<u32> = PaginatedResponse::new(2, None);

    let mut stream = first.pages();

    // First step: the caller fetches the second page and gets the first.
    let page = stream.begin_next_page().expect("first page");
    let yielded = stream
        .resume_next_page(page, Ok(Some(second)))
        .expect("first yield");
    assert_eq!(yielded.data, 1);

    // Second step: no next link, the stream ends after yielding.
    let page = stream.begin_next_page().expect("second page");
    let fetched = page.next_request().unwrap();
    assert!(fetched.is_none());
    let yielded = stream.resume_next_page(page, Ok(None)).expect("second yield");
    assert_eq!(yielded.data, 2);

    assert!(stream.begin_next_page().is_none());
}

#[test]
fn test_page_stream_stops_on_error() {
    let first: PaginatedResponse<u32> = PaginatedResponse::new(
        7,
        Some(PaginationMetadata {
            links: PaginationLinks {
                next: Some("https://api.torn.com/v2/items?cursor=2".to_string()),
                previous: None,
            },
        }),
    );
    let mut stream = first.pages();
    let page = stream.begin_next_page().expect("page");
    let err = stream
        .resume_next_page(page, Err(Error::RateLimited))
        .expect_err("error surfaces");
    assert!(matches!(err, Error::RateLimited));
    assert!(stream.begin_next_page().is_none());
}
