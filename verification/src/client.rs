//! The chat-API client: fixed identity headers over the resilient fetch
//! client, the endpoint strings it requests, and the cache keys its
//! read-through lookups use.

use vstd::prelude::*;
use vstd::string::StringSliceAdditionalSpecFns;
use vstd::utf8::encode_utf8;
use crate::digits::{dec_str, digit_char, u64_to_string};
use crate::retry::FetchClient;

verus! {

/// Whether every character may stand in an HTTP header value: horizontal
/// tab, visible ASCII and spaces, or anything beyond ASCII (whose encoded
/// bytes are all high); control characters and delete may not.
pub open spec fn spec_header_value_ok(s: Seq<char>) -> bool {
    forall|i: int|
        0 <= i < s.len() ==> (#[trigger] s[i] == '\t' || (32 <= s[i] as int && s[i] as int
            != 127))
}

/// Check a header value for characters an HTTP header cannot carry.
pub fn header_value_ok(s: &str) -> (r: bool)
    ensures
        r == spec_header_value_ok(s@),
{
    let len = s.unicode_len();
    let mut i: usize = 0;
    while i < len
        invariant
            0 <= i <= len,
            len == s@.len(),
            forall|j: int|
                0 <= j < i ==> (#[trigger] s@[j] == '\t' || (32 <= s@[j] as int && s@[j] as int
                    != 127)),
        decreases len - i,
    {
        let c = s.get_char(i);
        let code = c as u32;
        if !(c == '\t' || (32 <= code && code != 127)) {
            return false;
        }
        i = i + 1;
    }
    true
}

/// A character that percent-encoding passes through unchanged.
pub open spec fn spec_url_safe(c: char) -> bool {
    ('0' <= c && c <= '9') || ('A' <= c && c <= 'Z') || ('a' <= c && c <= 'z') || c == '-' || c
        == '.' || c == '_' || c == '~'
}

/// The hex digit for a value below sixteen, upper case.
pub open spec fn spec_hex_char(d: int) -> char {
    if d < 10 {
        digit_char(d as nat)
    } else if d == 10 {
        'A'
    } else if d == 11 {
        'B'
    } else if d == 12 {
        'C'
    } else if d == 13 {
        'D'
    } else if d == 14 {
        'E'
    } else {
        'F'
    }
}

/// Percent-encoding of an ASCII text: safe characters unchanged, every
/// other one as a percent sign and two upper-case hex digits.
pub open spec fn spec_urlencoded(s: Seq<char>) -> Seq<char>
    decreases s.len(),
{
    if s.len() == 0 {
        Seq::empty()
    } else {
        (if spec_url_safe(s[0]) {
            seq![s[0]]
        } else {
            seq!['%', spec_hex_char(s[0] as int / 16), spec_hex_char(s[0] as int % 16)]
        }) + spec_urlencoded(s.skip(1))
    }
}

/// Every character is ASCII.
pub open spec fn spec_all_ascii(s: Seq<char>) -> bool {
    forall|i: int| 0 <= i < s.len() ==> (#[trigger] s[i] as int) < 128
}

/// A byte that percent-encoding passes through unchanged.
pub open spec fn spec_url_safe_byte(b: u8) -> bool {
    (48 <= b && b <= 57) || (65 <= b && b <= 90) || (97 <= b && b <= 122) || b == 45 || b == 46
        || b == 95 || b == 126
}

/// Percent-encoding of a byte sequence: safe bytes unchanged, every other
/// one as a percent sign and two upper-case hex digits.
pub open spec fn spec_urlencoded_bytes(bs: Seq<u8>) -> Seq<char>
    decreases bs.len(),
{
    if bs.len() == 0 {
        Seq::empty()
    } else {
        (if spec_url_safe_byte(bs[0]) {
            seq![bs[0] as char]
        } else {
            seq!['%', spec_hex_char(bs[0] as int / 16), spec_hex_char(bs[0] as int % 16)]
        }) + spec_urlencoded_bytes(bs.skip(1))
    }
}

/// Relies on urlencoding's `encode`: every UTF-8 byte percent-encoded
/// except ASCII alphanumerics and `-`, `.`, `_`, `~`, with upper-case hex
/// digits.  On ASCII input, bytes and characters coincide, so the result is
/// also exactly `spec_urlencoded` over characters.
#[verifier::external_body]
fn urlencode(s: &str) -> (r: String)
    ensures
        r@ == spec_urlencoded_bytes(s.spec_bytes()),
        spec_all_ascii(s@) ==> r@ == spec_urlencoded(s@),
{
    urlencoding::encode(s).into_owned()
}

/// The cache key for a cached endpoint response: the crate's key prefix,
/// the endpoint, and percent-encoding over the whole.
pub fn endpoint_cache_key(endpoint: &str) -> (r: String)
    ensures
        r@ == spec_urlencoded_bytes(encode_utf8("msg_harvester_discord_"@ + endpoint@)),
        spec_all_ascii("msg_harvester_discord_"@ + endpoint@) ==> r@ == spec_urlencoded(
            "msg_harvester_discord_"@ + endpoint@,
        ),
{
    let mut name = String::from_str("msg_harvester_discord_");
    name.append(endpoint);
    urlencode(name.as_str())
}

/// The chat API's base URL.
pub fn discord_api_base() -> (r: String)
    ensures
        r@ == "https://discord.com/api/v10"@,
{
    String::from_str("https://discord.com/api/v10")
}

/// A client for the chat API: the resilient fetch client pointed at the API
/// base, carrying the identity and authorization headers.
pub struct DiscordClient {
    pub fetcher: FetchClient,
}

impl DiscordClient {
    /// Build the client for a token.  `None` when the token cannot stand in
    /// an HTTP header value.
    pub fn new(token: &str) -> (r: Option<DiscordClient>)
        ensures
            r is Some <==> spec_header_value_ok(token@),
            r matches Some(c) ==> ({
                &&& c.fetcher.base_url@ == "https://discord.com/api/v10"@
                &&& c.fetcher.headers@.len() == 2
                &&& c.fetcher.headers@[0].0@ == "User-Agent"@
                &&& c.fetcher.headers@[0].1@ == "DiscordOccasionalMsgFetcher (gloo-net, v0.1)"@
                &&& c.fetcher.headers@[1].0@ == "Authorization"@
                &&& c.fetcher.headers@[1].1@ == token@
                &&& c.fetcher.cooldown_until_ms is None
            }),
    {
        if !header_value_ok(token) {
            return None;
        }
        let mut headers: Vec<(String, String)> = Vec::new();
        headers.push(
            (
                String::from_str("User-Agent"),
                String::from_str("DiscordOccasionalMsgFetcher (gloo-net, v0.1)"),
            ),
        );
        headers.push((String::from_str("Authorization"), String::from_str(token)));
        let fetcher = FetchClient::new(discord_api_base()).with_headers(headers);
        Some(DiscordClient { fetcher })
    }

    /// The metadata endpoint for one channel.
    pub fn channel_endpoint(&self, channel_id: &str) -> (r: String)
        ensures
            r@ == "/channels/"@ + channel_id@,
    {
        let mut r = String::from_str("/channels/");
        r.append(channel_id);
        r
    }

    /// The metadata endpoint for one guild.
    pub fn guild_endpoint(&self, guild_id: &str) -> (r: String)
        ensures
            r@ == "/guilds/"@ + guild_id@,
    {
        let mut r = String::from_str("/guilds/");
        r.append(guild_id);
        r
    }

    /// The endpoint asking for the most recent messages of a channel.
    /// Requesting zero items is not a request.
    pub fn messages_endpoint(&self, channel_id: &str, limit: u8) -> (r: String)
        requires
            limit >= 1,
        ensures
            r@ == "/channels/"@ + channel_id@ + "/messages?limit="@ + dec_str(limit as nat),
    {
        let mut r = String::from_str("/channels/");
        r.append(channel_id);
        r.append("/messages?limit=");
        let n = u64_to_string(limit as u64);
        r.append(n.as_str());
        r
    }

    /// The endpoint asking for the messages strictly before an identifier.
    /// Requesting zero items is not a request.
    pub fn messages_before_endpoint(&self, channel_id: &str, before_id: &str, limit: u8) -> (r:
        String)
        requires
            limit >= 1,
        ensures
            r@ == "/channels/"@ + channel_id@ + "/messages?before="@ + before_id@ + "&limit="@
                + dec_str(limit as nat),
    {
        let mut r = String::from_str("/channels/");
        r.append(channel_id);
        r.append("/messages?before=");
        r.append(before_id);
        r.append("&limit=");
        let n = u64_to_string(limit as u64);
        r.append(n.as_str());
        r
    }
}

} // verus!
