use msg_harvester::client::{endpoint_cache_key, DiscordClient};
use msg_harvester::links::{channel_links, excluded_patterns, extract_links};
use msg_harvester::logfmt::{
    format_line, pad_left, request_log_level, scheduled_log_level, should_log, LogLevel,
    StringVisitor, WorkerLayer,
};
use msg_harvester::htmlnav::{nav_entries, Nav};
use msg_harvester::message::{Message, User};
use msg_harvester::textutil::{
    contains_substr, dedup_consecutive, ends_with_str, monthly_bucket_key, reverse_strings,
    starts_with_str, wants_html, zero_padded,
};

fn msg(content: &str) -> Message {
    Message {
        id: String::from("175928847299117063"),
        content: content.to_string(),
        author: User { id: String::from("1"), username: String::from("u") },
    }
}

fn strings(v: &[&str]) -> Vec<String> {
    v.iter().map(|s| s.to_string()).collect()
}

#[test]
fn extract_links_scans_every_message_in_order() {
    let msgs = vec![
        msg("see https://example.com/a and https://example.com/b"),
        msg("nothing here"),
        msg("also https://example.org/c"),
    ];
    let links = extract_links(&msgs);
    assert_eq!(
        links,
        strings(&[
            "https://example.com/a",
            "https://example.com/b",
            "https://example.org/c"
        ])
    );
}

#[test]
fn channel_links_drop_excluded_hosts() {
    let patterns = excluded_patterns();
    let msgs = vec![
        msg("a https://cdn.example.com/x b https://example.com/keep"),
        msg("c https://media.tumblr.com/y d https://TENOR.example/z"),
    ];
    let links = channel_links(&msgs, &patterns).unwrap();
    assert_eq!(links, strings(&["https://example.com/keep"]));
}

#[test]
fn cache_key_percent_encodes_the_endpoint() {
    assert_eq!(
        endpoint_cache_key("/channels/123"),
        "msg_harvester_discord_%2Fchannels%2F123"
    );
}

#[test]
fn client_builds_only_with_a_clean_token() {
    let c = DiscordClient::new("Bot abc123").unwrap();
    assert_eq!(c.fetcher.base_url, "https://discord.com/api/v10");
    assert_eq!(c.fetcher.headers.len(), 2);
    assert_eq!(c.fetcher.headers[1].1, "Bot abc123");
    assert!(DiscordClient::new("bad\ntoken").is_none());
}

#[test]
fn endpoints_are_rendered_exactly() {
    let c = DiscordClient::new("t").unwrap();
    assert_eq!(c.channel_endpoint("42"), "/channels/42");
    assert_eq!(c.guild_endpoint("9"), "/guilds/9");
    assert_eq!(c.messages_endpoint("42", 100), "/channels/42/messages?limit=100");
    assert_eq!(
        c.messages_before_endpoint("42", "175928847299117063", 50),
        "/channels/42/messages?before=175928847299117063&limit=50"
    );
}

#[test]
fn substring_and_affix_tests_work() {
    assert!(contains_substr("application/json, text/html", "text/html"));
    assert!(!contains_substr("application/json", "text/html"));
    assert!(wants_html(Some("text/html,*/*".to_string())));
    assert!(!wants_html(None));
    assert!(starts_with_str("page12.html", "page"));
    assert!(!starts_with_str("xpage", "page"));
    assert!(ends_with_str("page12.html", ".html"));
    assert!(!ends_with_str("page12.htm", ".html"));
}

#[test]
fn dedup_collapses_neighbouring_repeats_only() {
    assert_eq!(
        dedup_consecutive(strings(&["a", "a", "b", "b", "a"])),
        strings(&["a", "b", "a"])
    );
    assert_eq!(dedup_consecutive(strings(&[])), strings(&[]));
    assert_eq!(dedup_consecutive(strings(&["x"])), strings(&["x"]));
}

#[test]
fn reverse_strings_reverses() {
    assert_eq!(reverse_strings(strings(&["a", "b", "c"])), strings(&["c", "b", "a"]));
}

#[test]
fn month_key_is_zero_padded() {
    assert_eq!(zero_padded(7, 2), "07");
    assert_eq!(zero_padded(2024, 4), "2024");
    assert_eq!(zero_padded(123456, 4), "123456");
    assert_eq!(monthly_bucket_key(2024, 3), "2024-03_discord_merged");
    assert_eq!(monthly_bucket_key(987, 12), "0987-12_discord_merged");
}

#[test]
fn log_levels_filter_by_severity() {
    assert!(should_log(LogLevel::Error, LogLevel::Info));
    assert!(should_log(LogLevel::Info, LogLevel::Info));
    assert!(!should_log(LogLevel::Trace, LogLevel::Info));
    assert_eq!(request_log_level("development"), LogLevel::Trace);
    assert_eq!(request_log_level("production"), LogLevel::Info);
    assert_eq!(scheduled_log_level("production"), LogLevel::Info);
    assert_eq!(scheduled_log_level(""), LogLevel::Trace);
    let layer = WorkerLayer::new(LogLevel::Debug);
    assert_eq!(layer.level, LogLevel::Debug);
}

#[test]
fn log_lines_follow_the_console_format() {
    assert_eq!(pad_left("INFO", 5), " INFO");
    assert_eq!(pad_left("WARNING", 5), "WARNING");
    assert_eq!(
        format_line(LogLevel::Error, "app", "boom", "event"),
        "app: boom (event)"
    );
    assert_eq!(
        format_line(LogLevel::Info, "app", "ok", "event"),
        " INFO app: ok (event)"
    );
    let mut v = StringVisitor::new();
    v.record_rendered("message", "hello");
    v.record_rendered("count", "3");
    assert_eq!(v.string, "hellocount = 3; ");
}

#[test]
fn nav_entries_prefix_the_playlist_path() {
    let navs = vec![
        Nav::new("one".to_string(), "One".to_string()),
        Nav::new("two".to_string(), "Two".to_string()),
    ];
    let entries = nav_entries(&navs);
    assert_eq!(entries[0], ("playlist/one".to_string(), "One".to_string()));
    assert_eq!(entries[1], ("playlist/two".to_string(), "Two".to_string()));
}
