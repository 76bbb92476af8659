use msg_harvester::playlist::{
    base_url_of, max_page, page_endpoint, page_endpoints, page_links, parse_page_numbers,
    video_links, PlaylistFetcher,
};

fn strings(v: &[&str]) -> Vec<String> {
    v.iter().map(|s| s.to_string()).collect()
}

const LISTING: &str = r#"<html><body>
<a href="page2.html">2</a>
<a href="page3.html">3</a>
<a href="page3.html">3 again</a>
<a href="other.html">other</a>
<a>no href</a>
<a href="https://videos.example/video/abc?t=5">clip</a>
<a href="https://videos.example/video/def">clip2</a>
<a href="https://other.example/video/zzz">foreign</a>
</body></html>"#;

#[test]
fn page_links_keep_only_listing_pages() {
    let links = page_links(LISTING).unwrap();
    assert_eq!(links, strings(&["page2.html", "page3.html", "page3.html"]));
}

#[test]
fn video_links_strip_queries_and_foreign_hosts() {
    let links = video_links(LISTING, "https://videos.example/video/").unwrap();
    assert_eq!(
        links,
        strings(&[
            "https://videos.example/video/abc",
            "https://videos.example/video/def"
        ])
    );
}

#[test]
fn base_url_supplies_a_scheme_when_missing() {
    assert_eq!(base_url_of("videos.example/list"), Some("http://videos.example".to_string()));
    assert_eq!(
        base_url_of("https://videos.example/list"),
        Some("https://videos.example".to_string())
    );
}

#[test]
fn page_numbers_parse_or_fail_whole() {
    assert_eq!(
        parse_page_numbers(&strings(&["page2.html", "page10.html"])),
        Some(vec![2, 10])
    );
    assert_eq!(parse_page_numbers(&strings(&["page2.html", "pagex.html"])), None);
    assert_eq!(parse_page_numbers(&strings(&["page.html"])), None);
}

#[test]
fn max_page_defaults_to_one() {
    assert_eq!(max_page(&vec![]), 1);
    assert_eq!(max_page(&vec![2, 10, 3]), 10);
}

#[test]
fn page_endpoints_run_from_two_to_the_maximum() {
    assert_eq!(
        page_endpoint("https://videos.example/list", 7),
        "https://videos.example/list/page7.html"
    );
    let all = page_endpoints("https://v.e/l", 4);
    assert_eq!(all, strings(&["https://v.e/l/page2.html", "https://v.e/l/page3.html", "https://v.e/l/page4.html"]));
    assert!(page_endpoints("x", 1).is_empty());
}

#[test]
fn playlist_fetcher_starts_clean() {
    let f = PlaylistFetcher::new();
    assert_eq!(f.fetcher.base_url, "");
    assert!(f.fetcher.cooldown_until_ms.is_none());
}
