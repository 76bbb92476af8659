use msg_harvester::errors::FetchError;
use msg_harvester::kvstore::{
    join_lines, merge_append, merge_bucket, read_through_decision, MemKv, ReadThrough,
};
use msg_harvester::orchestrator::{partition_outcomes, should_persist, Permits};

fn strings(v: &[&str]) -> Vec<String> {
    v.iter().map(|s| s.to_string()).collect()
}

#[test]
fn one_failing_source_leaves_the_others_whole() {
    // Three sources; the middle one always fails. The aggregate holds the
    // first and third source's links, complete and in order, and the
    // failure is reported separately.
    let outcomes: Vec<Result<Vec<String>, FetchError>> = vec![
        Ok(strings(&["a1", "a2"])),
        Err(FetchError::SourceMetadataMissing),
        Ok(strings(&["c1"])),
    ];
    let (urls, errs) = partition_outcomes(outcomes);
    assert_eq!(urls, strings(&["a1", "a2", "c1"]));
    assert_eq!(errs.len(), 1);
    assert!(matches!(errs[0], FetchError::SourceMetadataMissing));
}

#[test]
fn all_failures_leave_an_empty_aggregate() {
    let outcomes: Vec<Result<Vec<String>, FetchError>> = vec![
        Err(FetchError::NetworkFailure),
        Err(FetchError::DecodeFailure),
    ];
    let (urls, errs) = partition_outcomes(outcomes);
    assert!(urls.is_empty());
    assert_eq!(errs.len(), 2);
    assert!(!should_persist(&urls));
}

#[test]
fn permits_cap_concurrent_sources() {
    let mut permits = Permits::new(8);
    for _ in 0..8 {
        assert!(permits.acquire());
    }
    assert!(!permits.acquire());
    permits.release();
    assert!(permits.acquire());
}

#[test]
fn kv_get_is_idempotent() {
    let mut kv = MemKv::new();
    kv.set("k", "v1", 60);
    let first = kv.get("k");
    let second = kv.get("k");
    assert_eq!(first, second);
    assert_eq!(first, Some("v1".to_string()));
}

#[test]
fn kv_last_writer_wins() {
    let mut kv = MemKv::new();
    kv.set("k", "v1", 60);
    kv.set("k", "v2", 60);
    kv.set("other", "x", 60);
    assert_eq!(kv.get("k"), Some("v2".to_string()));
    assert_eq!(kv.get("other"), Some("x".to_string()));
    assert_eq!(kv.get("missing"), None);
}

#[test]
fn read_through_uses_the_cache_only_on_a_hit() {
    match read_through_decision(Some("hit".to_string())) {
        ReadThrough::UseCached(v) => assert_eq!(v, "hit"),
        ReadThrough::FetchAndStore => panic!("expected the cached value"),
    }
    assert!(matches!(read_through_decision(None), ReadThrough::FetchAndStore));
}

#[test]
fn merges_append_with_and_without_separator() {
    assert_eq!(merge_append(None, "tail"), "tail");
    assert_eq!(merge_append(Some("head".to_string()), "tail"), "headtail");
    assert_eq!(merge_bucket(None, "tail"), "\ntail");
    assert_eq!(merge_bucket(Some("head".to_string()), "tail"), "head\ntail");
}

#[test]
fn join_lines_places_one_newline_between_neighbours() {
    assert_eq!(join_lines(&strings(&[])), "");
    assert_eq!(join_lines(&strings(&["one"])), "one");
    assert_eq!(join_lines(&strings(&["a", "b", "c"])), "a\nb\nc");
}
