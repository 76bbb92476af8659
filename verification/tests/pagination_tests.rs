use msg_harvester::digits::parse_u64;
use msg_harvester::message::{require_guild_id, Channel, Message, User};
use msg_harvester::pagination::{
    drain_decision, filter_to_window, initial_page_request, DrainStep, PageQuery,
};
use msg_harvester::snowflake::unix_ms_to_snowflake;
use msg_harvester::source::{collect_range, MessageSource};
use msg_harvester::timewin::{harvest_window, parse_month, TimeBound, TimeWindow};

const EPOCH_MS: i64 = 1420070400000;

fn msg_at(ts_s: i64, seq: u16) -> Message {
    let id = unix_ms_to_snowflake(ts_s * 1000, 0, seq).unwrap();
    Message {
        id,
        content: String::new(),
        author: User { id: String::from("1"), username: String::from("u") },
    }
}

/// A source of `n` messages, newest first, one per second counting down
/// from `newest_s`.
fn source(newest_s: i64, n: usize) -> MessageSource {
    let mut msgs = Vec::new();
    for i in 0..n {
        msgs.push(msg_at(newest_s - i as i64, 0));
    }
    MessageSource { msgs }
}

fn base_s() -> i64 {
    EPOCH_MS / 1000 + 1_000_000
}

#[test]
fn window_contains_follows_the_bounds() {
    let w = TimeWindow { start: TimeBound::Included(10), end: TimeBound::Excluded(20) };
    assert!(w.contains(10));
    assert!(w.contains(19));
    assert!(!w.contains(9));
    assert!(!w.contains(20));
    let open = TimeWindow { start: TimeBound::Unbounded, end: TimeBound::Unbounded };
    assert!(open.contains(i64::MIN));
    assert!(open.contains(i64::MAX));
}

#[test]
fn harvest_window_spans_the_schedule_gap() {
    let w = harvest_window(1_000_000, 10);
    assert_eq!(w.start, TimeBound::Included(999_400));
    assert_eq!(w.end, TimeBound::Excluded(1_000_000));
}

#[test]
fn initial_request_converts_the_end_bound() {
    let t1 = base_s();
    let w = TimeWindow { start: TimeBound::Included(t1 - 100), end: TimeBound::Excluded(t1) };
    match initial_page_request(&w, None).unwrap() {
        PageQuery::Before { cursor, limit } => {
            assert_eq!(limit, 100);
            let expected = parse_u64(&unix_ms_to_snowflake(t1 * 1000, 0, 0).unwrap()).unwrap();
            assert_eq!(cursor, expected);
        }
        other => panic!("unexpected query {:?}", other),
    }
    let open = TimeWindow { start: TimeBound::Included(t1 - 100), end: TimeBound::Unbounded };
    match initial_page_request(&open, Some(7)).unwrap() {
        PageQuery::Latest { limit } => assert_eq!(limit, 7),
        other => panic!("unexpected query {:?}", other),
    }
}

#[test]
fn initial_request_rejects_an_unencodable_bound() {
    let w = TimeWindow { start: TimeBound::Unbounded, end: TimeBound::Excluded(10) };
    assert!(initial_page_request(&w, None).is_err());
}

#[test]
fn filter_truncates_at_the_window_boundary() {
    let t = base_s();
    let w = TimeWindow { start: TimeBound::Included(t - 2), end: TimeBound::Excluded(t + 1) };
    let batch = vec![msg_at(t, 0), msg_at(t - 1, 0), msg_at(t - 2, 0), msg_at(t - 3, 0)];
    let kept = filter_to_window(batch, &w);
    assert_eq!(kept.len(), 3);
    assert_eq!(kept[0].timestamp().unwrap(), t);
    assert_eq!(kept[2].timestamp().unwrap(), t - 2);
}

#[test]
fn drain_stops_without_items_or_outside_the_window() {
    let t = base_s();
    let w = TimeWindow { start: TimeBound::Included(t - 10), end: TimeBound::Excluded(t + 1) };
    let empty: Vec<Message> = Vec::new();
    assert_eq!(drain_decision(&empty, None, &w), DrainStep::Stop);
    let outside = vec![msg_at(t - 100, 0)];
    assert_eq!(drain_decision(&outside, None, &w), DrainStep::Stop);
    let inside = vec![msg_at(t, 0)];
    match drain_decision(&inside, None, &w) {
        DrainStep::Fetch { cursor, limit } => {
            assert_eq!(limit, 100);
            assert_eq!(cursor, parse_u64(&inside[0].id).unwrap());
        }
        DrainStep::Stop => panic!("expected a fetch"),
    }
    assert_eq!(drain_decision(&inside, Some(1), &w), DrainStep::Stop);
}

#[test]
fn collect_range_returns_exactly_the_window() {
    // 250 one-per-second messages; the window covers 150 of them, so the
    // walk crosses two full pages and a boundary page.
    let newest = base_s();
    let src = source(newest, 250);
    let t0 = newest - 199; // in-window: ts in [t0, t1) = newest-199 ..= newest-50
    let t1 = newest - 49;
    let w = TimeWindow { start: TimeBound::Included(t0), end: TimeBound::Excluded(t1) };
    let mut requests: usize = 0;
    let got = collect_range(&src, &w, None, &mut requests).unwrap();
    assert_eq!(got.len(), 150);
    // One full page, a boundary page, and the empty page that ends the walk.
    assert_eq!(requests, 3);
    // Newest-first, exactly the in-window instants.
    for (i, m) in got.iter().enumerate() {
        let ts = m.timestamp().unwrap();
        assert_eq!(ts, t1 - 1 - i as i64);
        assert!(ts >= t0 && ts < t1);
    }
    // No identifier at or past the synthetic cursor.
    let cursor = parse_u64(&unix_ms_to_snowflake(t1 * 1000, 0, 0).unwrap()).unwrap();
    for m in &got {
        assert!(parse_u64(&m.id).unwrap() < cursor);
    }
}

#[test]
fn collect_range_handles_an_empty_window() {
    let newest = base_s();
    let src = source(newest, 10);
    let w = TimeWindow {
        start: TimeBound::Included(newest + 100),
        end: TimeBound::Excluded(newest + 200),
    };
    let mut requests: usize = 0;
    let got = collect_range(&src, &w, None, &mut requests).unwrap();
    assert!(got.is_empty());
    assert_eq!(requests, 1);
}

#[test]
fn collect_range_returns_exactly_the_budget() {
    // The window holds 241 items but the budget allows 120: exactly the 120
    // newest in-window items come back, newest first.
    let newest = base_s();
    let src = source(newest, 250);
    let w = TimeWindow {
        start: TimeBound::Included(newest - 240),
        end: TimeBound::Excluded(newest + 1),
    };
    let mut requests: usize = 0;
    let got = collect_range(&src, &w, Some(120), &mut requests).unwrap();
    assert_eq!(got.len(), 120);
    assert_eq!(requests, 2);
    for (i, m) in got.iter().enumerate() {
        assert_eq!(m.timestamp().unwrap(), newest - i as i64);
    }
}

#[test]
fn collect_range_with_an_inclusive_bound_stays_below_it() {
    // An inclusive upper bound still converts to the same synthetic cursor,
    // so items at the boundary instant itself are not fetched: the result is
    // everything strictly below it.
    let newest = base_s();
    let src = source(newest, 20);
    let t1 = newest - 5;
    let w = TimeWindow { start: TimeBound::Included(newest - 15), end: TimeBound::Included(t1) };
    let mut requests: usize = 0;
    let got = collect_range(&src, &w, None, &mut requests).unwrap();
    assert_eq!(got.len(), 10);
    for (i, m) in got.iter().enumerate() {
        assert_eq!(m.timestamp().unwrap(), t1 - 1 - i as i64);
    }
}

#[test]
fn collect_range_fails_on_an_unencodable_bound() {
    let src = source(base_s(), 3);
    let w = TimeWindow { start: TimeBound::Unbounded, end: TimeBound::Excluded(0) };
    let mut requests: usize = 0;
    assert!(collect_range(&src, &w, None, &mut requests).is_err());
    assert_eq!(requests, 0);
}

#[test]
fn message_timestamp_reads_the_identifier() {
    let t = base_s();
    let m = msg_at(t, 3);
    assert_eq!(m.timestamp().unwrap(), t);
    let bad = Message {
        id: String::from("nope"),
        content: String::new(),
        author: User { id: String::from("1"), username: String::from("u") },
    };
    assert!(bad.timestamp().is_err());
}

#[test]
fn channel_without_guild_is_missing_metadata() {
    let with = Channel {
        id: String::from("10"),
        name: String::from("general"),
        guild_id: Some(String::from("77")),
    };
    assert_eq!(require_guild_id(&with).unwrap(), "77");
    let without = Channel { id: String::from("10"), name: String::from("general"), guild_id: None };
    assert!(matches!(
        require_guild_id(&without),
        Err(msg_harvester::errors::FetchError::SourceMetadataMissing)
    ));
}

#[test]
fn parse_month_reads_year_and_month() {
    assert_eq!(parse_month("202403"), Some((2024, 3)));
    assert_eq!(parse_month("2024-03"), Some((2024, 3)));
    assert_eq!(parse_month("2024-13"), None);
    assert_eq!(parse_month("2024-00"), None);
    assert_eq!(parse_month("20243"), None);
    assert_eq!(parse_month("2024x3"), None);
}
