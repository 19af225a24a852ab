use kline_ingest::rest_client::{fetch_outcome, is_success, FetchEvent, HttpClientError};

#[test]
fn a_successful_response_gives_its_body() {
    let r = fetch_outcome(FetchEvent::Responded { status: 200, body: Some("[]".to_string()) });
    assert_eq!(r.ok().as_deref(), Some("[]"));
    let r = fetch_outcome(FetchEvent::Responded { status: 299, body: Some("x".to_string()) });
    assert_eq!(r.ok().as_deref(), Some("x"));
}

#[test]
fn a_status_without_success_fails_the_request() {
    for status in [0u16, 100, 199, 300, 404, 429, 500, 65535] {
        let r = fetch_outcome(FetchEvent::Responded { status, body: Some("body".to_string()) });
        assert!(matches!(r, Err(HttpClientError::UnexpectedStatus(s)) if s == status));
        let r = fetch_outcome(FetchEvent::Responded { status, body: None });
        assert!(matches!(r, Err(HttpClientError::UnexpectedStatus(s)) if s == status));
    }
}

#[test]
fn a_body_that_cannot_be_read_fails_the_request() {
    let r = fetch_outcome(FetchEvent::Responded { status: 200, body: None });
    assert!(matches!(r, Err(HttpClientError::ReadBodyError)));
}

#[test]
fn a_transport_failure_fails_the_request() {
    let r = fetch_outcome(FetchEvent::TransportFailed("connection refused".to_string()));
    assert!(matches!(r, Err(HttpClientError::RequestError(m)) if m == "connection refused"));
}

#[test]
fn success_is_the_two_hundreds() {
    assert!(!is_success(199));
    assert!(is_success(200));
    assert!(is_success(204));
    assert!(is_success(299));
    assert!(!is_success(300));
}

#[test]
fn fetch_errors_describe_themselves() {
    assert_eq!(
        HttpClientError::RequestError("dns".to_string()).message(),
        "Request failed: dns"
    );
    assert_eq!(HttpClientError::UnexpectedStatus(404).message(), "Unexpected response status: 404");
    assert_eq!(HttpClientError::ReadBodyError.message(), "Failed to read response body");
}
