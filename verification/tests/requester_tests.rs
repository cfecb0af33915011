use mangadex_dl::requester::{
    classify_response, json_outcome, RateLimitedRequester, RequestStep, RequesterError,
    RequesterSource,
};

#[test]
fn source_reads_its_host() {
    let src = RequesterSource::new("https://api.mangadex.org", 200, 1000).unwrap();
    assert_eq!(src.base_url, "https://api.mangadex.org");
    assert_eq!(src.host, "api.mangadex.org");
    assert_eq!(src.limiter.timeout, 200);

    let src2 = RequesterSource::new("http://example.org/sub/path", 50, 0).unwrap();
    assert_eq!(src2.host, "example.org");

    assert_eq!(
        RequesterSource::new("not a url", 50, 0).unwrap_err(),
        RequesterError::NoHost
    );
    assert_eq!(
        RequesterSource::new("https:///nohost", 50, 0).unwrap_err(),
        RequesterError::NoHost
    );
}

#[test]
fn default_registry_holds_three_destinations() {
    let req = RateLimitedRequester::new_with_defaults(0);
    assert_eq!(req.sources.len(), 3);
    assert_eq!(req.sources[0].0, "main");
    assert_eq!(req.sources[1].0, "cdn");
    assert_eq!(req.sources[2].0, "content");
    assert_eq!(req.sources[1].1.limiter.timeout, 1500);
    assert_eq!(req.sources[2].1.base_url, "https://uploads.mangadex.org");
}

#[test]
fn duplicate_alias_is_refused() {
    let mut req = RateLimitedRequester::new();
    req.insert_source("main", "https://example.org", 100, 0).unwrap();
    assert_eq!(
        req.insert_source("main", "https://other.org", 100, 0).unwrap_err(),
        RequesterError::ConflictingAlias
    );
    assert_eq!(req.sources.len(), 1);
}

#[test]
fn request_planning_throttles_a_registered_destination() {
    let mut req = RateLimitedRequester::new_with_defaults(0);
    // Long after start the limiter grants the request at once,
    // and the hit is recorded.
    let plan = req.begin_request("main", "/manga/abc", 10_000);
    assert_eq!(plan.wait_ms, 0);
    assert_eq!(plan.url, "https://api.mangadex.org/manga/abc");
    assert_eq!(plan.host.as_deref(), Some("api.mangadex.org"));
    // A second request at the same instant owes the full interval.
    let plan2 = req.begin_request("main", "/manga/abc", 10_000);
    assert_eq!(plan2.wait_ms, 200);
    // After that wait has passed, the next request is granted at once.
    let plan3 = req.begin_request("main", "/manga/abc", 10_400);
    assert_eq!(plan3.wait_ms, 0);
}

#[test]
fn unregistered_alias_is_sent_bare() {
    let mut req = RateLimitedRequester::new();
    let plan = req.begin_request("https://cdn.example", "/x/y.png", 5);
    assert_eq!(plan.wait_ms, 0);
    assert_eq!(plan.url, "/x/y.png");
    assert_eq!(plan.host, None);
}

#[test]
fn success_is_used_as_it_stands() {
    assert_eq!(
        classify_response(200, None, String::new(), 0, 3),
        RequestStep::Proceed
    );
    assert_eq!(
        classify_response(204, None, String::new(), 0, 0),
        RequestStep::Proceed
    );
}

#[test]
fn remote_errors_surface_their_body() {
    assert_eq!(
        classify_response(404, None, "not found".to_string(), 0, 3),
        RequestStep::Fail(RequesterError::APIError("not found".to_string()))
    );
    assert_eq!(
        classify_response(500, None, "boom".to_string(), 0, 3),
        RequestStep::Fail(RequesterError::APIError("boom".to_string()))
    );
}

#[test]
fn rate_limited_retry_waits_out_the_declared_delay() {
    // The server allows a retry two seconds from now.
    let hdr = b"1002".to_vec();
    let step = classify_response(429, Some(&hdr), String::new(), 1000, 3);
    assert_eq!(step, RequestStep::Retry { delay_seconds: 2 });
    // The retried request succeeds: exactly one retry happened.
    let step2 = classify_response(200, None, String::new(), 1002, 2);
    assert_eq!(step2, RequestStep::Proceed);
}

#[test]
fn rate_limited_retry_in_the_past_needs_no_delay() {
    let hdr = b"995".to_vec();
    let step = classify_response(429, Some(&hdr), String::new(), 1000, 1);
    assert_eq!(step, RequestStep::Retry { delay_seconds: 0 });
}

#[test]
fn rate_limit_without_a_readable_time_fails() {
    assert_eq!(
        classify_response(429, None, String::new(), 1000, 3),
        RequestStep::Fail(RequesterError::RateLimited)
    );
    let bad = b"soon".to_vec();
    assert_eq!(
        classify_response(429, Some(&bad), String::new(), 1000, 3),
        RequestStep::Fail(RequesterError::RateLimited)
    );
}

#[test]
fn rate_limit_with_no_attempts_left_fails() {
    let hdr = b"1002".to_vec();
    assert_eq!(
        classify_response(429, Some(&hdr), String::new(), 1000, 0),
        RequestStep::Fail(RequesterError::RateLimited)
    );
}

#[test]
fn decode_failure_keeps_the_raw_body() {
    assert_eq!(json_outcome(Some(5u64), "ignored".to_string()), Ok(5));
    assert_eq!(
        json_outcome::<u64>(None, "raw body".to_string()),
        Err(RequesterError::UnexpectedResponse("raw body".to_string()))
    );
}
