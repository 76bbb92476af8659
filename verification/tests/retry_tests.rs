use msg_harvester::errors::FetchError;
use msg_harvester::retry::{
    backoff_delay_s, lookup_header, parse_retry_after, run_fetch, str_eq_ignore_case,
    AttemptOutcome, FetchClient, HttpResponse,
};

fn headers(pairs: &[(&str, &str)]) -> Vec<(String, String)> {
    pairs.iter().map(|(k, v)| (k.to_string(), v.to_string())).collect()
}

fn response(status: u16, hdrs: &[(&str, &str)], body: &[u8]) -> AttemptOutcome {
    AttemptOutcome::Response(HttpResponse {
        status,
        headers: headers(hdrs),
        body: body.to_vec(),
    })
}

#[test]
fn header_lookup_is_case_insensitive() {
    assert!(str_eq_ignore_case("Retry-After", "retry-after"));
    assert!(!str_eq_ignore_case("Retry-After", "retry_after"));
    let hs = headers(&[("content-type", "text/plain"), ("retry-after", "45")]);
    assert_eq!(lookup_header(&hs, "Retry-After"), Some("45".to_string()));
    assert_eq!(lookup_header(&hs, "x-missing"), None);
}

#[test]
fn retry_after_defaults_to_thirty() {
    assert_eq!(parse_retry_after(&headers(&[])), 30);
    assert_eq!(parse_retry_after(&headers(&[("Retry-After", "oops")])), 30);
    assert_eq!(parse_retry_after(&headers(&[("Retry-After", "45")])), 45);
    assert_eq!(parse_retry_after(&headers(&[("retry-after", "45")])), 45);
}

#[test]
fn backoff_doubles_from_one_second() {
    assert_eq!(backoff_delay_s(0, 0), 1);
    assert_eq!(backoff_delay_s(1, 0), 2);
    assert_eq!(backoff_delay_s(2, 1), 5);
    assert_eq!(backoff_delay_s(4, 0), 16);
}

#[test]
fn cooldown_blocks_until_the_wait_elapses() {
    // A 429 with Retry-After: 45 delays the next request by at least 45 s.
    let mut client = FetchClient::new("https://example.com".to_string());
    let now: u64 = 1_000_000;
    assert!(client.note_rate_limit(now, 45));
    assert_eq!(client.ready_delay_ms(now), 45_000);
    assert_eq!(client.ready_delay_ms(now + 44_999), 1);
    assert_eq!(client.ready_delay_ms(now + 45_000), 0);
}

#[test]
fn oversized_retry_after_is_not_honoured() {
    let mut client = FetchClient::new("https://example.com".to_string());
    assert!(!client.note_rate_limit(1_000, 1000));
    assert_eq!(client.cooldown_until_ms, None);
}

#[test]
fn fetch_aborts_at_once_on_a_long_rate_limit() {
    // Retry-After: 1000 exceeds the fifteen-minute ceiling: the fetch
    // aborts immediately, with no sleep recorded and no further attempt.
    let mut client = FetchClient::new(String::new());
    let script = vec![
        response(429, &[("Retry-After", "1000")], b""),
        response(200, &[], b"never reached"),
        response(200, &[], b"never reached"),
        response(200, &[], b"never reached"),
        response(200, &[], b"never reached"),
    ];
    let r = run_fetch(&mut client, None, &script, 5_000);
    match r {
        Err(FetchError::RateLimitAborted { retry_after_s }) => assert_eq!(retry_after_s, 1000),
        other => panic!("unexpected outcome {:?}", other),
    }
    assert_eq!(client.cooldown_until_ms, None);
}

#[test]
fn fetch_sets_the_cooldown_on_an_honoured_rate_limit() {
    let mut client = FetchClient::new(String::new());
    let script = vec![
        response(429, &[("Retry-After", "45")], b""),
        response(200, &[], b"payload"),
        response(200, &[], b"unused"),
        response(200, &[], b"unused"),
        response(200, &[], b"unused"),
    ];
    let now = 2_000;
    let r = run_fetch(&mut client, None, &script, now);
    assert_eq!(r.unwrap(), b"payload".to_vec());
    assert_eq!(client.cooldown_until_ms, Some(now + 45_000));
}

#[test]
fn fetch_keeps_the_last_honoured_cooldown() {
    // Two honoured rate limits in one fetch: the later wait overwrites the
    // earlier one in the shared register.
    let mut client = FetchClient::new(String::new());
    let script = vec![
        response(429, &[("Retry-After", "45")], b""),
        response(429, &[("Retry-After", "60")], b""),
        response(200, &[], b"done"),
        response(200, &[], b"unused"),
        response(200, &[], b"unused"),
    ];
    let now = 9_000;
    let r = run_fetch(&mut client, None, &script, now);
    assert_eq!(r.unwrap(), b"done".to_vec());
    assert_eq!(client.cooldown_until_ms, Some(now + 60_000));
}

#[test]
fn fetch_retries_failures_until_a_success() {
    let mut client = FetchClient::new(String::new());
    let script = vec![
        AttemptOutcome::NetworkError,
        response(500, &[], b""),
        response(200, &[], b"third time"),
        response(200, &[], b"unused"),
        response(200, &[], b"unused"),
    ];
    let r = run_fetch(&mut client, None, &script, 0);
    assert_eq!(r.unwrap(), b"third time".to_vec());
}

#[test]
fn fetch_reports_the_last_failure_when_attempts_run_out() {
    let mut client = FetchClient::new(String::new());
    let script = vec![
        response(500, &[], b""),
        response(502, &[], b""),
        response(503, &[], b""),
        AttemptOutcome::NetworkError,
        response(504, &[("x-id", "last")], b""),
    ];
    let r = run_fetch(&mut client, None, &script, 0);
    match r {
        Err(FetchError::HttpStatusFailure { status, headers }) => {
            assert_eq!(status, 504);
            assert_eq!(headers, vec![("x-id".to_string(), "last".to_string())]);
        }
        other => panic!("unexpected outcome {:?}", other),
    }
}

#[test]
fn fetch_reports_a_network_failure_when_nothing_answers() {
    let mut client = FetchClient::new(String::new());
    let script = vec![
        AttemptOutcome::NetworkError,
        AttemptOutcome::NetworkError,
        AttemptOutcome::NetworkError,
        AttemptOutcome::NetworkError,
        AttemptOutcome::NetworkError,
    ];
    let r = run_fetch(&mut client, None, &script, 0);
    assert!(matches!(r, Err(FetchError::NetworkFailure)));
}

#[test]
fn cache_hit_skips_the_network() {
    let mut client = FetchClient::new(String::new());
    let script = vec![
        AttemptOutcome::NetworkError,
        AttemptOutcome::NetworkError,
        AttemptOutcome::NetworkError,
        AttemptOutcome::NetworkError,
        AttemptOutcome::NetworkError,
    ];
    let r = run_fetch(&mut client, Some(b"cached body".to_vec()), &script, 0);
    assert_eq!(r.unwrap(), b"cached body".to_vec());
    assert_eq!(client.cooldown_until_ms, None);
}

#[test]
fn client_builders_keep_their_settings() {
    let client = FetchClient::new("https://api.test".to_string())
        .with_headers(vec![("a".to_string(), "b".to_string())])
        .with_cache_ttl(90);
    assert_eq!(client.base_url, "https://api.test");
    assert_eq!(client.cache_ttl_s, 90);
    assert_eq!(client.full_url("/x"), "https://api.test/x");
}
