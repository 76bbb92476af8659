//! Turning harvested messages into link lists: the link scanner, the
//! pattern excluder, and the verified pipeline around them.

use vstd::prelude::*;
use crate::message::Message;
use crate::retry::spec_lower;

verus! {

/// The links the scanner finds in a text, in order.  The scanner's result
/// depends on the text alone.
pub uninterp spec fn links_of(text: Seq<char>) -> Seq<Seq<char>>;

/// Whether the matcher for these patterns can be built at all.  Building
/// depends on the patterns alone.
pub uninterp spec fn excluder_builds(patterns: Seq<Seq<char>>) -> bool;

/// `pat` occurs in `hay` at position `k`, ASCII letters compared without
/// case.
pub open spec fn spec_ci_occurs_at(hay: Seq<char>, pat: Seq<char>, k: int) -> bool {
    0 <= k && k + pat.len() <= hay.len() && (forall|t: int|
        0 <= t < pat.len() ==> spec_lower(#[trigger] hay[k + t]) == spec_lower(pat[t]))
}

/// Whether some pattern occurs somewhere in the haystack, ASCII letters
/// compared without case.
pub open spec fn matches_any_pattern(patterns: Seq<Seq<char>>, hay: Seq<char>) -> bool {
    exists|i: int, k: int|
        0 <= i < patterns.len() && #[trigger] spec_ci_occurs_at(hay, patterns[i], k)
}

/// Relies on linkify's `LinkFinder::links`: scanning a text finds each link
/// as a substring, in order, depending on the text alone.
#[verifier::external_body]
fn find_links(text: &str) -> (r: Vec<String>)
    ensures
        r@.map_values(|s: String| s@) == links_of(text@),
        text@.len() == 0 ==> r@.len() == 0,
{
    linkify::LinkFinder::new().links(text).map(|l| l.as_str().to_string()).collect()
}

/// Relies on aho-corasick's `AhoCorasickBuilder::build` and
/// `AhoCorasick::is_match` over a matcher built with
/// `ascii_case_insensitive`: building succeeds as a function of the
/// patterns alone, and a built matcher reports exactly whether some pattern
/// occurs in the haystack with ASCII letters compared without case.
#[verifier::external_body]
fn patterns_match(patterns: &Vec<String>, hay: &str) -> (r: Option<bool>)
    ensures
        r is Some <==> excluder_builds(patterns@.map_values(|p: String| p@)),
        r matches Some(b) ==> b == matches_any_pattern(
            patterns@.map_values(|p: String| p@),
            hay@,
        ),
{
    let matcher = aho_corasick::AhoCorasick::builder().ascii_case_insensitive(true).build(
        patterns,
    );
    match matcher {
        Ok(m) => Some(m.is_match(hay)),
        Err(_) => None,
    }
}

/// The fixed host fragments whose links are dropped from the harvest.
pub fn excluded_patterns() -> (r: Vec<String>)
    ensures
        r@.map_values(|p: String| p@) =~= seq![
            "cdn."@,
            "tenor."@,
            "redgifs."@,
            "discordapp."@,
            "redd.it"@,
            "media.tumblr."@,
        ],
{
    let mut r: Vec<String> = Vec::new();
    r.push(String::from_str("cdn."));
    r.push(String::from_str("tenor."));
    r.push(String::from_str("redgifs."));
    r.push(String::from_str("discordapp."));
    r.push(String::from_str("redd.it"));
    r.push(String::from_str("media.tumblr."));
    r
}

/// All links of all message contents, flattened in message order.
pub open spec fn spec_message_links(msgs: Seq<Message>) -> Seq<Seq<char>>
    decreases msgs.len(),
{
    if msgs.len() == 0 {
        Seq::empty()
    } else {
        links_of(msgs[0].content@) + spec_message_links(msgs.skip(1))
    }
}

/// Collect every link the scanner finds in the messages' contents, newest
/// message first.
pub fn extract_links(msgs: &Vec<Message>) -> (r: Vec<String>)
    ensures
        r@.map_values(|s: String| s@) == spec_message_links(msgs@),
{
    let len = msgs.len();
    let mut r: Vec<String> = Vec::new();
    let mut i: usize = 0;
    proof {
        assert(r@.map_values(|s: String| s@) =~= Seq::<Seq<char>>::empty());
        assert(msgs@.take(0) =~= Seq::<Message>::empty());
    }
    while i < len
        invariant
            0 <= i <= len,
            len == msgs@.len(),
            r@.map_values(|s: String| s@) == spec_message_links(msgs@.take(i as int)),
        decreases len - i,
    {
        let mut found = find_links(msgs[i].content.as_str());
        let ghost rpre = r@;
        let ghost fview = found@;
        r.append(&mut found);
        proof {
            assert(r@ =~= rpre + fview);
            assert(r@.map_values(|s: String| s@) =~= rpre.map_values(|s: String| s@)
                + fview.map_values(|s: String| s@));
            lemma_message_links_take_step(msgs@, i as int);
        }
        i = i + 1;
    }
    proof {
        assert(msgs@.take(len as int) =~= msgs@);
    }
    r
}

proof fn lemma_message_links_take_step(msgs: Seq<Message>, i: int)
    requires
        0 <= i < msgs.len(),
    ensures
        spec_message_links(msgs.take(i + 1)) == spec_message_links(msgs.take(i)) + links_of(
            msgs[i].content@,
        ),
    decreases i,
{
    if i == 0 {
        assert(msgs.take(1)[0] == msgs[0]);
        assert(msgs.take(1).skip(1) =~= Seq::<Message>::empty());
        assert(msgs.take(0) =~= Seq::<Message>::empty());
        assert(spec_message_links(Seq::<Message>::empty()) =~= Seq::<Seq<char>>::empty());
        assert(spec_message_links(msgs.take(1)) == links_of(msgs.take(1)[0].content@)
            + spec_message_links(msgs.take(1).skip(1)));
        assert(links_of(msgs[0].content@) + Seq::<Seq<char>>::empty() =~= links_of(
            msgs[0].content@,
        ));
        assert(spec_message_links(msgs.take(1)) =~= links_of(msgs[0].content@));
        assert(spec_message_links(msgs.take(0)) + links_of(msgs[0].content@) =~= links_of(
            msgs[0].content@,
        ));
    } else {
        lemma_message_links_take_step(msgs.skip(1), i - 1);
        assert(msgs.take(i + 1)[0] == msgs[0]);
        assert(msgs.take(i + 1).skip(1) =~= msgs.skip(1).take(i));
        assert(msgs.take(i).skip(1) =~= msgs.skip(1).take(i - 1));
        assert(msgs.take(i)[0] == msgs[0]);
        assert(msgs.skip(1)[i - 1] == msgs[i]);
        assert(links_of(msgs[0].content@) + (spec_message_links(msgs.skip(1).take(i - 1))
            + links_of(msgs[i].content@)) =~= (links_of(msgs[0].content@) + spec_message_links(
            msgs.skip(1).take(i - 1),
        )) + links_of(msgs[i].content@));
    }
}

/// The links kept after the exclusion filter: those in which no excluded
/// pattern occurs.
pub open spec fn spec_kept_links(links: Seq<String>, patterns: Seq<Seq<char>>) -> Seq<String>
    decreases links.len(),
{
    if links.len() == 0 {
        Seq::empty()
    } else if matches_any_pattern(patterns, links[0]@) {
        spec_kept_links(links.skip(1), patterns)
    } else {
        seq![links[0]] + spec_kept_links(links.skip(1), patterns)
    }
}

/// Drop every link in which one of the excluded patterns occurs.  `None`
/// exactly when there were links to test and the pattern matcher could not
/// be built.
pub fn filter_excluded(links: Vec<String>, patterns: &Vec<String>) -> (r: Option<Vec<String>>)
    ensures
        r is Some <==> (links@.len() == 0 || excluder_builds(
            patterns@.map_values(|p: String| p@),
        )),
        r matches Some(v) ==> v@ == spec_kept_links(
            links@,
            patterns@.map_values(|p: String| p@),
        ),
{
    let ghost pats = patterns@.map_values(|p: String| p@);
    let len = links.len();
    let mut r: Vec<String> = Vec::new();
    let mut i: usize = 0;
    proof {
        assert(links@.skip(0) =~= links@);
    }
    while i < len
        invariant
            0 <= i <= len,
            len == links@.len(),
            pats == patterns@.map_values(|p: String| p@),
            i > 0 ==> excluder_builds(pats),
            spec_kept_links(links@, pats) == r@ + spec_kept_links(links@.skip(i as int), pats),
        decreases len - i,
    {
        let ghost rest = links@.skip(i as int);
        proof {
            assert(rest[0] == links@[i as int]);
            assert(rest.skip(1) =~= links@.skip(i + 1));
        }
        match patterns_match(patterns, links[i].as_str()) {
            None => {
                return None;
            },
            Some(excluded) => {
                if !excluded {
                    let ghost rpre = r@;
                    r.push(links[i].clone());
                    proof {
                        assert(spec_kept_links(rest, pats) == seq![rest[0]] + spec_kept_links(
                            rest.skip(1),
                            pats,
                        ));
                        assert(rpre + (seq![links@[i as int]] + spec_kept_links(
                            links@.skip(i + 1),
                            pats,
                        )) =~= r@ + spec_kept_links(links@.skip(i + 1), pats));
                    }
                } else {
                    proof {
                        assert(spec_kept_links(rest, pats) == spec_kept_links(
                            rest.skip(1),
                            pats,
                        ));
                    }
                }
            },
        }
        i = i + 1;
    }
    proof {
        assert(spec_kept_links(links@.skip(len as int), pats) =~= Seq::<String>::empty());
        assert(r@ + Seq::<String>::empty() =~= r@);
    }
    Some(r)
}

/// One source's output: every link found in its messages, with the
/// exclusion filter applied.  `None` exactly when links were found and the
/// pattern matcher could not be built from the patterns.
pub fn channel_links(msgs: &Vec<Message>, patterns: &Vec<String>) -> (r: Option<Vec<String>>)
    ensures
        r is Some <==> (spec_message_links(msgs@).len() == 0 || excluder_builds(
            patterns@.map_values(|p: String| p@),
        )),
        r matches Some(v) ==> ({
            let found = spec_message_links(msgs@);
            v@.map_values(|s: String| s@) == spec_kept_links_views(
                found,
                patterns@.map_values(|p: String| p@),
            )
        }),
{
    let found = extract_links(msgs);
    let ghost fviews = found@.map_values(|s: String| s@);
    proof {
        assert(fviews.len() == found@.len());
    }
    let r = filter_excluded(found, patterns);
    proof {
        if r is Some {
            lemma_kept_links_views(
                found@,
                patterns@.map_values(|p: String| p@),
            );
        }
    }
    r
}

/// The exclusion filter stated over texts rather than `String` values.
pub open spec fn spec_kept_links_views(links: Seq<Seq<char>>, patterns: Seq<Seq<char>>) -> Seq<
    Seq<char>,
>
    decreases links.len(),
{
    if links.len() == 0 {
        Seq::empty()
    } else if matches_any_pattern(patterns, links[0]) {
        spec_kept_links_views(links.skip(1), patterns)
    } else {
        seq![links[0]] + spec_kept_links_views(links.skip(1), patterns)
    }
}

proof fn lemma_kept_links_views(links: Seq<String>, patterns: Seq<Seq<char>>)
    ensures
        spec_kept_links(links, patterns).map_values(|s: String| s@) == spec_kept_links_views(
            links.map_values(|s: String| s@),
            patterns,
        ),
    decreases links.len(),
{
    let f = |s: String| s@;
    if links.len() == 0 {
        assert(spec_kept_links(links, patterns).map_values(f) =~= Seq::<Seq<char>>::empty());
        assert(links.map_values(f).len() == 0);
        assert(spec_kept_links_views(links.map_values(f), patterns) =~= Seq::<
            Seq<char>,
        >::empty());
    } else {
        lemma_kept_links_views(links.skip(1), patterns);
        assert(links.map_values(f)[0] == links[0]@);
        assert(links.map_values(f).skip(1) =~= links.skip(1).map_values(f));
        if matches_any_pattern(patterns, links[0]@) {
        } else {
            assert((seq![links[0]] + spec_kept_links(links.skip(1), patterns)).map_values(f)
                =~= seq![links[0]@] + spec_kept_links(links.skip(1), patterns).map_values(f));
            assert(seq![links[0]@] + spec_kept_links_views(
                links.skip(1).map_values(f),
                patterns,
            ) =~= spec_kept_links_views(links.map_values(f), patterns));
        }
    }
}

} // verus!
