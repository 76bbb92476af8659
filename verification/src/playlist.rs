//! Walking paginated HTML listing pages: anchor extraction, page-number
//! discovery, per-page endpoints and video-link collection.

use vstd::prelude::*;
use crate::digits::{dec_str, dec_val, parse_u64, parses_as_u64, u64_to_string};
use crate::retry::{FetchClient, DEFAULT_CACHE_TTL_S};
use crate::textutil::{contains_substr, ends_with_str, spec_contains_substr, starts_with_str};

verus! {

/// The view of an optional attribute value.
pub open spec fn spec_opt_view(o: Option<String>) -> Option<Seq<char>> {
    match o {
        Some(s) => Some(s@),
        None => None,
    }
}

/// The attribute values of the elements an HTML document holds for a
/// selector, in document order, one entry per element, `None` where the
/// element lacks the attribute; `None` overall when the selector is not
/// valid.  The result depends on the document, selector and attribute
/// alone.
pub uninterp spec fn selected_attrs_of(html: Seq<char>, selector: Seq<char>, attr: Seq<char>) -> Option<
    Seq<Option<Seq<char>>>,
>;

/// What a parsed URL renders as once its query is removed; `None` when the
/// text does not parse as a URL.  Depends on the text alone.
pub uninterp spec fn sans_query_of(url: Seq<char>) -> Option<Seq<char>>;

/// The scheme and host a URL parses to (the host empty when the URL has
/// none); `None` when the text does not parse.  Depends on the text alone.
pub uninterp spec fn scheme_host_of(url: Seq<char>) -> Option<(Seq<char>, Seq<char>)>;

/// Relies on scraper's `Html::parse_document`, `Selector::parse` and
/// `ElementRef::attr`: each selected element's attribute value in document
/// order, `None` for the whole when the selector is invalid.
#[verifier::external_body]
fn select_attr(html: &str, selector: &str, attr: &str) -> (r: Option<Vec<Option<String>>>)
    ensures
        r matches Some(v) ==> selected_attrs_of(html@, selector@, attr@) == Some(
            v@.map_values(|o: Option<String>| spec_opt_view(o)),
        ),
        r is None ==> selected_attrs_of(html@, selector@, attr@) is None,
{
    let sel = match scraper::Selector::parse(selector) {
        Ok(s) => s,
        Err(_) => {
            return None;
        },
    };
    let doc = scraper::Html::parse_document(html);
    Some(doc.select(&sel).map(|el| el.value().attr(attr).map(|v| v.to_string())).collect())
}

/// Relies on url's `Url::parse`, `set_query(None)` and `as_str`: the URL
/// re-rendered without its query, `None` when the text does not parse.
#[verifier::external_body]
fn url_without_query(u: &str) -> (r: Option<String>)
    ensures
        r matches Some(v) ==> sans_query_of(u@) == Some(v@),
        r is None ==> sans_query_of(u@) is None,
{
    match url::Url::parse(u) {
        Ok(mut parsed) => {
            parsed.set_query(None);
            Some(parsed.as_str().to_string())
        },
        Err(_) => None,
    }
}

/// Relies on url's `Url::parse`, `scheme` and `host_str`: the scheme and
/// host of the parsed URL (the host empty when there is none), `None` when
/// the text does not parse.
#[verifier::external_body]
fn url_scheme_host(u: &str) -> (r: Option<(String, String)>)
    ensures
        r matches Some(p) ==> scheme_host_of(u@) == Some((p.0@, p.1@)),
        r is None ==> scheme_host_of(u@) is None,
{
    match url::Url::parse(u) {
        Ok(parsed) => {
            let scheme = parsed.scheme().to_string();
            let host = parsed.host_str().unwrap_or("").to_string();
            Some((scheme, host))
        },
        Err(_) => None,
    }
}

/// An href that names a further listing page: `page…html`.
pub open spec fn spec_is_page_href(h: Seq<char>) -> bool {
    &&& "page"@.len() <= h.len()
    &&& h.subrange(0, 4) == "page"@
    &&& ".html"@.len() <= h.len()
    &&& h.subrange(h.len() - 5, h.len() as int) == ".html"@
}

/// The hrefs among the attribute values that name further listing pages.
pub open spec fn spec_page_hrefs(attrs: Seq<Option<Seq<char>>>) -> Seq<Seq<char>>
    decreases attrs.len(),
{
    if attrs.len() == 0 {
        Seq::empty()
    } else {
        (match attrs[0] {
            Some(h) => if spec_is_page_href(h) {
                seq![h]
            } else {
                Seq::empty()
            },
            None => Seq::empty(),
        }) + spec_page_hrefs(attrs.skip(1))
    }
}

/// The listing-page links of a document: every anchor href of the shape
/// `page…html`, in document order.  `None` exactly when anchor selection
/// fails on this document.
pub fn page_links(html: &str) -> (r: Option<Vec<String>>)
    ensures
        r is Some <==> selected_attrs_of(html@, "a"@, "href"@) is Some,
        r matches Some(v) ==> (selected_attrs_of(html@, "a"@, "href"@) matches Some(attrs)
            && v@.map_values(|s: String| s@) == spec_page_hrefs(attrs)),
{
    let attrs = match select_attr(html, "a", "href") {
        Some(a) => a,
        None => {
            return None;
        },
    };
    let ghost aview = attrs@.map_values(|o: Option<String>| spec_opt_view(o));
    let len = attrs.len();
    let mut r: Vec<String> = Vec::new();
    let mut i: usize = 0;
    proof {
        assert(aview.skip(0) =~= aview);
        assert(r@.map_values(|s: String| s@) + spec_page_hrefs(aview) =~= spec_page_hrefs(
            aview,
        ));
    }
    while i < len
        invariant
            0 <= i <= len,
            len == attrs@.len(),
            aview == attrs@.map_values(|o: Option<String>| spec_opt_view(o)),
            spec_page_hrefs(aview) == r@.map_values(|s: String| s@) + spec_page_hrefs(
                aview.skip(i as int),
            ),
        decreases len - i,
    {
        let ghost rest = aview.skip(i as int);
        proof {
            assert(rest[0] == aview[i as int]);
            assert(aview[i as int] == spec_opt_view(attrs@[i as int]));
            assert(rest.skip(1) =~= aview.skip(i + 1));
        }
        match &attrs[i] {
            Some(h) => {
                let keep = starts_with_str(h.as_str(), "page") && ends_with_str(
                    h.as_str(),
                    ".html",
                );
                proof {
                    reveal_strlit("page");
                    reveal_strlit(".html");
                    assert(keep == spec_is_page_href(h@));
                }
                if keep {
                    let ghost rpre = r@;
                    r.push(h.clone());
                    proof {
                        assert(r@.map_values(|s: String| s@) =~= rpre.map_values(
                            |s: String| s@,
                        ) + seq![h@]);
                        assert(rpre.map_values(|s: String| s@) + (seq![h@] + spec_page_hrefs(
                            aview.skip(i + 1),
                        )) =~= r@.map_values(|s: String| s@) + spec_page_hrefs(
                            aview.skip(i + 1),
                        ));
                    }
                } else {
                    proof {
                        assert(Seq::<Seq<char>>::empty() + spec_page_hrefs(aview.skip(i + 1))
                            =~= spec_page_hrefs(aview.skip(i + 1)));
                    }
                }
            },
            None => {
                proof {
                    assert(Seq::<Seq<char>>::empty() + spec_page_hrefs(aview.skip(i + 1)) =~=
                        spec_page_hrefs(aview.skip(i + 1)));
                }
            },
        }
        i = i + 1;
    }
    proof {
        assert(spec_page_hrefs(aview.skip(len as int)) =~= Seq::<Seq<char>>::empty());
        assert(r@.map_values(|s: String| s@) + Seq::<Seq<char>>::empty() =~= r@.map_values(
            |s: String| s@,
        ));
    }
    Some(r)
}

/// The video links among the attribute values: hrefs with the given prefix,
/// re-rendered without their query; hrefs that do not parse as URLs are
/// dropped.
pub open spec fn spec_video_hrefs(attrs: Seq<Option<Seq<char>>>, prefix: Seq<char>) -> Seq<
    Seq<char>,
>
    decreases attrs.len(),
{
    if attrs.len() == 0 {
        Seq::empty()
    } else {
        (match attrs[0] {
            Some(h) => if prefix.len() <= h.len() && h.subrange(0, prefix.len() as int)
                == prefix {
                match sans_query_of(h) {
                    Some(u) => seq![u],
                    None => Seq::empty(),
                }
            } else {
                Seq::empty()
            },
            None => Seq::empty(),
        }) + spec_video_hrefs(attrs.skip(1), prefix)
    }
}

/// Extract the video links of a document: anchor hrefs with the given
/// prefix, query parameters stripped.  `None` exactly when anchor selection
/// fails on this document.
pub fn video_links(html: &str, prefix: &str) -> (r: Option<Vec<String>>)
    ensures
        r is Some <==> selected_attrs_of(html@, "a"@, "href"@) is Some,
        r matches Some(v) ==> (selected_attrs_of(html@, "a"@, "href"@) matches Some(attrs)
            && v@.map_values(|s: String| s@) == spec_video_hrefs(attrs, prefix@)),
{
    let attrs = match select_attr(html, "a", "href") {
        Some(a) => a,
        None => {
            return None;
        },
    };
    let ghost aview = attrs@.map_values(|o: Option<String>| spec_opt_view(o));
    let len = attrs.len();
    let mut r: Vec<String> = Vec::new();
    let mut i: usize = 0;
    proof {
        assert(aview.skip(0) =~= aview);
        assert(r@.map_values(|s: String| s@) + spec_video_hrefs(aview, prefix@) =~=
            spec_video_hrefs(aview, prefix@));
    }
    while i < len
        invariant
            0 <= i <= len,
            len == attrs@.len(),
            aview == attrs@.map_values(|o: Option<String>| spec_opt_view(o)),
            spec_video_hrefs(aview, prefix@) == r@.map_values(|s: String| s@)
                + spec_video_hrefs(aview.skip(i as int), prefix@),
        decreases len - i,
    {
        let ghost rest = aview.skip(i as int);
        proof {
            assert(rest[0] == aview[i as int]);
            assert(aview[i as int] == spec_opt_view(attrs@[i as int]));
            assert(rest.skip(1) =~= aview.skip(i + 1));
        }
        match &attrs[i] {
            Some(h) => {
                if starts_with_str(h.as_str(), prefix) {
                    match url_without_query(h.as_str()) {
                        Some(u) => {
                            let ghost rpre = r@;
                            r.push(u);
                            proof {
                                assert(r@.map_values(|s: String| s@) =~= rpre.map_values(
                                    |s: String| s@,
                                ) + seq![r@.last()@]);
                                assert(rpre.map_values(|s: String| s@) + (seq![r@.last()@]
                                    + spec_video_hrefs(aview.skip(i + 1), prefix@)) =~=
                                    r@.map_values(|s: String| s@) + spec_video_hrefs(
                                    aview.skip(i + 1),
                                    prefix@,
                                ));
                            }
                        },
                        None => {
                            proof {
                                assert(Seq::<Seq<char>>::empty() + spec_video_hrefs(
                                    aview.skip(i + 1),
                                    prefix@,
                                ) =~= spec_video_hrefs(aview.skip(i + 1), prefix@));
                            }
                        },
                    }
                } else {
                    proof {
                        assert(Seq::<Seq<char>>::empty() + spec_video_hrefs(
                            aview.skip(i + 1),
                            prefix@,
                        ) =~= spec_video_hrefs(aview.skip(i + 1), prefix@));
                    }
                }
            },
            None => {
                proof {
                    assert(Seq::<Seq<char>>::empty() + spec_video_hrefs(
                        aview.skip(i + 1),
                        prefix@,
                    ) =~= spec_video_hrefs(aview.skip(i + 1), prefix@));
                }
            },
        }
        i = i + 1;
    }
    proof {
        assert(spec_video_hrefs(aview.skip(len as int), prefix@) =~= Seq::<Seq<char>>::empty());
        assert(r@.map_values(|s: String| s@) + Seq::<Seq<char>>::empty() =~= r@.map_values(
            |s: String| s@,
        ));
    }
    Some(r)
}

/// The text a raw listing URL is parsed from: unchanged when it already
/// carries a scheme separator, else with `http://` put in front.
pub open spec fn spec_with_scheme(raw: Seq<char>) -> Seq<char> {
    if spec_contains_substr(raw, "://"@) {
        raw
    } else {
        "http://"@ + raw
    }
}

/// The base `scheme://host` of a raw listing URL; `None` when it does not
/// parse as a URL even after a scheme is supplied.
pub fn base_url_of(raw: &str) -> (r: Option<String>)
    ensures
        r is Some <==> scheme_host_of(spec_with_scheme(raw@)) is Some,
        r matches Some(v) ==> (scheme_host_of(spec_with_scheme(raw@)) matches Some(p) && v@
            == p.0 + "://"@ + p.1),
{
    let fixed = if contains_substr(raw, "://") {
        String::from_str(raw)
    } else {
        let mut f = String::from_str("http://");
        f.append(raw);
        f
    };
    match url_scheme_host(fixed.as_str()) {
        Some(p) => {
            let (scheme, host) = p;
            let mut v = scheme;
            v.append("://");
            v.append(host.as_str());
            Some(v)
        },
        None => None,
    }
}

/// The number in a listing-page href `page<n>.html`: the characters between
/// the affixes read as a decimal `u32`.  Only digits count: a sign
/// character between the affixes fails the read.
pub open spec fn spec_page_number(h: Seq<char>) -> Option<u32> {
    if h.len() >= 9 {
        let mid = h.subrange(4, h.len() - 5);
        if parses_as_u64(mid) && dec_val(mid) <= u32::MAX {
            Some(dec_val(mid) as u32)
        } else {
            None
        }
    } else {
        None
    }
}

/// Read the page number out of every listing-page href; `None` as soon as
/// one href carries no readable number.
pub fn parse_page_numbers(pagelinks: &Vec<String>) -> (r: Option<Vec<u32>>)
    ensures
        r matches Some(v) ==> (v@.len() == pagelinks@.len() && (forall|i: int|
            0 <= i < v@.len() ==> Some(#[trigger] v@[i]) == spec_page_number(
                pagelinks@[i]@,
            ))),
        r is None ==> (exists|i: int|
            0 <= i < pagelinks@.len() && spec_page_number(#[trigger] pagelinks@[i]@) is None),
{
    let len = pagelinks.len();
    let mut r: Vec<u32> = Vec::new();
    let mut i: usize = 0;
    while i < len
        invariant
            0 <= i <= len,
            len == pagelinks@.len(),
            r@.len() == i,
            forall|j: int|
                0 <= j < i ==> Some(#[trigger] r@[j]) == spec_page_number(pagelinks@[j]@),
        decreases len - i,
    {
        let h = &pagelinks[i];
        let hlen = h.as_str().unicode_len();
        if hlen < 9 {
            return None;
        }
        let mid = h.as_str().substring_char(4, hlen - 5);
        match parse_u64(mid) {
            Some(n) => {
                if n > 0xFFFF_FFFFu64 {
                    return None;
                }
                r.push(n as u32);
            },
            None => {
                return None;
            },
        }
        i = i + 1;
    }
    Some(r)
}

/// The largest discovered page number, or 1 when none was found.
pub fn max_page(nums: &Vec<u32>) -> (r: u32)
    ensures
        nums@.len() == 0 ==> r == 1,
        nums@.len() > 0 ==> ((exists|i: int| 0 <= i < nums@.len() && nums@[i] == r) && (forall|
            i: int,
        | 0 <= i < nums@.len() ==> nums@[i] <= r)),
{
    let len = nums.len();
    if len == 0 {
        return 1;
    }
    let mut r = nums[0];
    let mut i: usize = 1;
    while i < len
        invariant
            1 <= i <= len,
            len == nums@.len(),
            exists|j: int| 0 <= j < i && nums@[j] == r,
            forall|j: int| 0 <= j < i ==> nums@[j] <= r,
        decreases len - i,
    {
        if nums[i] > r {
            r = nums[i];
        }
        i = i + 1;
    }
    r
}

/// The endpoint of one further listing page.
pub fn page_endpoint(url: &str, n: u32) -> (r: String)
    ensures
        r@ == url@ + "/page"@ + dec_str(n as nat) + ".html"@,
{
    let mut r = String::from_str(url);
    r.append("/page");
    let num = u64_to_string(n as u64);
    r.append(num.as_str());
    r.append(".html");
    r
}

/// The endpoints of pages 2 through `maxpage`, in order.
pub fn page_endpoints(url: &str, maxpage: u32) -> (r: Vec<String>)
    requires
        maxpage < u32::MAX,
    ensures
        r@.len() == (if maxpage >= 2 {
            maxpage - 1
        } else {
            0int
        }),
        forall|i: int|
            0 <= i < r@.len() ==> (#[trigger] r@[i])@ == url@ + "/page"@ + dec_str(
                (i + 2) as nat,
            ) + ".html"@,
{
    let mut r: Vec<String> = Vec::new();
    if maxpage < 2 {
        return r;
    }
    let mut x: u32 = 2;
    while x <= maxpage
        invariant
            maxpage < u32::MAX,
            2 <= x <= maxpage + 1,
            r@.len() == x - 2,
            forall|i: int|
                0 <= i < r@.len() ==> (#[trigger] r@[i])@ == url@ + "/page"@ + dec_str(
                    (i + 2) as nat,
                ) + ".html"@,
        decreases maxpage + 1 - x,
    {
        let e = page_endpoint(url, x);
        r.push(e);
        x = x + 1;
    }
    r
}

/// The fetcher that walks listing pages: endpoints are full URLs, so the
/// base is empty; the default short response-cache lifetime applies.
pub struct PlaylistFetcher {
    pub fetcher: FetchClient,
}

impl PlaylistFetcher {
    /// A listing-page fetcher with an empty base URL and no cooldown.
    pub fn new() -> (r: PlaylistFetcher)
        ensures
            r.fetcher.base_url@ == Seq::<char>::empty(),
            r.fetcher.headers@.len() == 0,
            r.fetcher.cache_ttl_s == DEFAULT_CACHE_TTL_S,
            r.fetcher.cooldown_until_ms is None,
    {
        PlaylistFetcher { fetcher: FetchClient::new(String::new()) }
    }
}

} // verus!
