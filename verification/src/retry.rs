//! The resilient fetch client's decision core: retry classification,
//! exponential backoff, `Retry-After` handling, and the shared rate-limit
//! cooldown register.
//!
//! The transport itself (sending a request, sleeping a delay) lives outside;
//! `run_fetch` plays the whole retry policy against any sequence of attempt
//! outcomes the transport could report, so the policy is verified for every
//! possible conversation.

use vstd::prelude::*;
use crate::digits::{dec_val, parse_u64, parses_as_u64};
use crate::errors::FetchError;

verus! {

/// The most tries one fetch makes.
pub const MAX_ATTEMPTS: usize = 5;

/// The smallest delay between attempts, in seconds.
pub const MIN_RETRY_DELAY_S: u64 = 1;

/// The largest backoff delay, in seconds.
pub const MAX_BACKOFF_DELAY_S: u64 = 60;

/// What `Retry-After` defaults to when absent or unreadable, in seconds.
pub const DEFAULT_RETRY_AFTER_S: u64 = 30;

/// The longest rate-limit wait honoured before aborting: fifteen minutes.
pub const RETRY_AFTER_CEILING_S: u64 = 900;

/// The default response-cache lifetime, in seconds.
pub const DEFAULT_CACHE_TTL_S: u64 = 60;

/// A response snapshot: status code, headers and body.
#[derive(Clone, Debug)]
pub struct HttpResponse {
    pub status: u16,
    pub headers: Vec<(String, String)>,
    pub body: Vec<u8>,
}

/// What one attempt produced, as the transport reports it.
#[derive(Clone, Debug)]
pub enum AttemptOutcome {
    /// The request produced no response at all.
    NetworkError,
    /// A response arrived, of any status.
    Response(HttpResponse),
}

/// ASCII lower-casing of one character.
pub open spec fn spec_lower(c: char) -> char {
    if 'A' <= c && c <= 'Z' {
        (((c as u8) + 32) as u8) as char
    } else {
        c
    }
}

/// ASCII-case-insensitive equality of two character sequences.
pub open spec fn spec_str_ieq(a: Seq<char>, b: Seq<char>) -> bool {
    a.len() == b.len() && (forall|i: int|
        0 <= i < a.len() ==> spec_lower(#[trigger] a[i]) == spec_lower(b[i]))
}

/// ASCII-case-insensitive string equality.
pub fn str_eq_ignore_case(a: &str, b: &str) -> (r: bool)
    ensures
        r == spec_str_ieq(a@, b@),
{
    let alen = a.unicode_len();
    let blen = b.unicode_len();
    if alen != blen {
        return false;
    }
    let mut i: usize = 0;
    while i < alen
        invariant
            0 <= i <= alen,
            alen == a@.len(),
            alen == b@.len(),
            forall|j: int| 0 <= j < i ==> spec_lower(#[trigger] a@[j]) == spec_lower(b@[j]),
        decreases alen - i,
    {
        let ca = a.get_char(i);
        let cb = b.get_char(i);
        let la = if 'A' <= ca && ca <= 'Z' {
            ((ca as u8) + 32) as char
        } else {
            ca
        };
        let lb = if 'A' <= cb && cb <= 'Z' {
            ((cb as u8) + 32) as char
        } else {
            cb
        };
        if la != lb {
            return false;
        }
        i = i + 1;
    }
    true
}

/// The value of the first header whose name matches case-insensitively.
pub open spec fn spec_lookup_header(hs: Seq<(String, String)>, name: Seq<char>) -> Option<
    Seq<char>,
>
    decreases hs.len(),
{
    if hs.len() == 0 {
        None
    } else if spec_str_ieq(hs[0].0@, name) {
        Some(hs[0].1@)
    } else {
        spec_lookup_header(hs.skip(1), name)
    }
}

/// Find a header by name, case-insensitively; the first match wins.
pub fn lookup_header(headers: &Vec<(String, String)>, name: &str) -> (r: Option<String>)
    ensures
        match r {
            Some(v) => spec_lookup_header(headers@, name@) == Some(v@),
            None => spec_lookup_header(headers@, name@) is None,
        },
{
    let len = headers.len();
    let mut i: usize = 0;
    proof {
        assert(headers@.skip(0) =~= headers@);
    }
    while i < len
        invariant
            0 <= i <= len,
            len == headers@.len(),
            spec_lookup_header(headers@, name@) == spec_lookup_header(
                headers@.skip(i as int),
                name@,
            ),
        decreases len - i,
    {
        proof {
            assert(headers@.skip(i as int)[0] == headers@[i as int]);
            assert(headers@.skip(i as int).skip(1) =~= headers@.skip(i + 1));
        }
        if str_eq_ignore_case(headers[i].0.as_str(), name) {
            return Some(headers[i].1.clone());
        }
        i = i + 1;
    }
    None
}

/// The wait a rate-limit response asks for: its `Retry-After` header read as
/// whole seconds, or the default when the header is absent or unreadable.
pub open spec fn spec_retry_after(hs: Seq<(String, String)>) -> u64 {
    match spec_lookup_header(hs, "Retry-After"@) {
        None => DEFAULT_RETRY_AFTER_S,
        Some(v) => if parses_as_u64(v) {
            dec_val(v) as u64
        } else {
            DEFAULT_RETRY_AFTER_S
        },
    }
}

/// Read the `Retry-After` wait out of a header snapshot.
pub fn parse_retry_after(headers: &Vec<(String, String)>) -> (r: u64)
    ensures
        r == spec_retry_after(headers@),
{
    match lookup_header(headers, "Retry-After") {
        None => DEFAULT_RETRY_AFTER_S,
        Some(v) => match parse_u64(v.as_str()) {
            Some(n) => n,
            None => DEFAULT_RETRY_AFTER_S,
        },
    }
}

/// The backoff base before retry number `attempt` (counted from zero): the
/// minimum delay doubled once per attempt already made, capped at the
/// largest backoff delay.
pub open spec fn spec_backoff_base(attempt: int) -> int {
    if attempt <= 0 {
        MIN_RETRY_DELAY_S as int
    } else if attempt == 1 {
        2 * MIN_RETRY_DELAY_S as int
    } else if attempt == 2 {
        4 * MIN_RETRY_DELAY_S as int
    } else if attempt == 3 {
        8 * MIN_RETRY_DELAY_S as int
    } else if attempt == 4 {
        16 * MIN_RETRY_DELAY_S as int
    } else if attempt == 5 {
        32 * MIN_RETRY_DELAY_S as int
    } else {
        MAX_BACKOFF_DELAY_S as int
    }
}

/// The backoff delay before retry number `attempt`: the doubled base plus
/// the caller's jitter.
pub open spec fn spec_backoff_delay(attempt: int, jitter_s: int) -> int {
    spec_backoff_base(attempt) + jitter_s
}

/// Compute the backoff delay for one retry.  The jitter is drawn by the
/// caller; the delay is exact in both.
pub fn backoff_delay_s(attempt: usize, jitter_s: u64) -> (r: u64)
    requires
        attempt < MAX_ATTEMPTS,
        jitter_s <= MIN_RETRY_DELAY_S,
    ensures
        r == spec_backoff_delay(attempt as int, jitter_s as int),
{
    let base: u64 = if attempt == 0 {
        1
    } else if attempt == 1 {
        2
    } else if attempt == 2 {
        4
    } else if attempt == 3 {
        8
    } else {
        16
    };
    base + jitter_s
}


/// How the policy reads a response status: success, a rate-limit signal, or
/// a retryable failure.
#[derive(Clone, Copy, Debug, PartialEq, Eq, Structural)]
pub enum ResponseClass {
    /// Any 2xx response.
    Success,
    /// A 429 response; `Retry-After` decides what happens next.
    RateLimited,
    /// Anything else; retried until the attempt budget is spent.
    Failure,
}

/// Classify a response status for the retry policy.
pub fn classify_status(status: u16) -> (r: ResponseClass)
    ensures
        r == (if 200 <= status && status <= 299 {
            ResponseClass::Success
        } else if status == 429 {
            ResponseClass::RateLimited
        } else {
            ResponseClass::Failure
        }),
{
    if 200 <= status && status <= 299 {
        ResponseClass::Success
    } else if status == 429 {
        ResponseClass::RateLimited
    } else {
        ResponseClass::Failure
    }
}

/// The fetch client's own state: where it points, what it sends, how long
/// responses may be cached, and the shared rate-limit cooldown.
pub struct FetchClient {
    pub base_url: String,
    pub headers: Vec<(String, String)>,
    pub cache_ttl_s: u64,
    /// The monotonic millisecond instant before which no request may be
    /// sent; `None` while no cooldown is active.
    pub cooldown_until_ms: Option<u64>,
}

/// The wait still owed at instant `now_ms` under a cooldown register.
pub open spec fn spec_ready_delay(cooldown_until_ms: Option<u64>, now_ms: u64) -> int {
    match cooldown_until_ms {
        Some(c) => if c > now_ms {
            c - now_ms
        } else {
            0
        },
        None => 0,
    }
}

impl FetchClient {
    /// A client for one base URL: no extra headers, the default cache
    /// lifetime, no active cooldown.
    pub fn new(base_url: String) -> (r: FetchClient)
        ensures
            r.base_url@ == base_url@,
            r.headers@.len() == 0,
            r.cache_ttl_s == DEFAULT_CACHE_TTL_S,
            r.cooldown_until_ms is None,
    {
        FetchClient {
            base_url,
            headers: Vec::new(),
            cache_ttl_s: DEFAULT_CACHE_TTL_S,
            cooldown_until_ms: None,
        }
    }

    /// The same client with these default headers.
    pub fn with_headers(self, headers: Vec<(String, String)>) -> (r: FetchClient)
        ensures
            r == (FetchClient { headers, ..self }),
    {
        FetchClient { headers, ..self }
    }

    /// The same client with this response-cache lifetime.
    pub fn with_cache_ttl(self, ttl_s: u64) -> (r: FetchClient)
        ensures
            r == (FetchClient { cache_ttl_s: ttl_s, ..self }),
    {
        FetchClient { cache_ttl_s: ttl_s, ..self }
    }

    /// The full URL of an endpoint: the base with the endpoint appended.
    pub fn full_url(&self, endpoint: &str) -> (r: String)
        ensures
            r@ == self.base_url@ + endpoint@,
    {
        let mut url = self.base_url.clone();
        url.append(endpoint);
        url
    }

    /// How long a request issued at `now_ms` must still wait.
    pub fn ready_delay_ms(&self, now_ms: u64) -> (r: u64)
        ensures
            r == spec_ready_delay(self.cooldown_until_ms, now_ms),
    {
        match self.cooldown_until_ms {
            Some(c) => if c > now_ms {
                c - now_ms
            } else {
                0
            },
            None => 0,
        }
    }

    /// React to a rate-limit response at instant `now_ms` asking for
    /// `retry_after_s` seconds: set the shared cooldown and report `true`
    /// when the wait is within the ceiling; leave everything untouched and
    /// report `false` when it is not (the fetch is then aborted, not
    /// retried).
    pub fn note_rate_limit(&mut self, now_ms: u64, retry_after_s: u64) -> (accepted: bool)
        requires
            now_ms <= u64::MAX - RETRY_AFTER_CEILING_S * 1000,
        ensures
            retry_after_s > RETRY_AFTER_CEILING_S ==> (!accepted && *final(self) == *old(self)),
            retry_after_s <= RETRY_AFTER_CEILING_S ==> (accepted && *final(self) == (FetchClient {
                cooldown_until_ms: Some((now_ms + retry_after_s * 1000) as u64),
                ..*old(self)
            })),
    {
        if retry_after_s > RETRY_AFTER_CEILING_S {
            false
        } else {
            self.cooldown_until_ms = Some(now_ms + retry_after_s * 1000);
            true
        }
    }
}

/// Law: once a rate-limit wait of `retry_after_s` seconds is accepted at
/// instant `now_ms`, every earlier instant than `now_ms + retry_after_s`
/// seconds still owes exactly the remaining wait, which is positive: no
/// request on this client goes out before the cooldown instant.
pub proof fn lemma_cooldown_blocks(
    c: FetchClient,
    now_ms: u64,
    retry_after_s: u64,
    t_ms: u64,
)
    requires
        retry_after_s <= RETRY_AFTER_CEILING_S,
        now_ms <= u64::MAX - RETRY_AFTER_CEILING_S * 1000,
        t_ms < now_ms + retry_after_s * 1000,
    ensures
        ({
            let set = FetchClient {
                cooldown_until_ms: Some((now_ms + retry_after_s * 1000) as u64),
                ..c
            };
            spec_ready_delay(set.cooldown_until_ms, t_ms) == now_ms + retry_after_s * 1000 - t_ms
                > 0
        }),
{
}

/// Whether the policy treats this outcome as a success: any 2xx response.
pub open spec fn spec_is_success(o: AttemptOutcome) -> bool {
    match o {
        AttemptOutcome::Response(resp) => 200 <= resp.status <= 299,
        AttemptOutcome::NetworkError => false,
    }
}

/// Whether this outcome aborts the fetch: a rate-limit response asking for
/// more than the ceiling.
pub open spec fn spec_is_rate_limit_abort(o: AttemptOutcome) -> bool {
    match o {
        AttemptOutcome::Response(resp) => resp.status == 429 && spec_retry_after(resp.headers@)
            > RETRY_AFTER_CEILING_S,
        AttemptOutcome::NetworkError => false,
    }
}

/// Whether this outcome sets the cooldown and retries: a rate-limit response
/// within the ceiling.
pub open spec fn spec_is_rate_limit_wait(o: AttemptOutcome) -> bool {
    match o {
        AttemptOutcome::Response(resp) => resp.status == 429 && spec_retry_after(resp.headers@)
            <= RETRY_AFTER_CEILING_S,
        AttemptOutcome::NetworkError => false,
    }
}

/// No outcome in the script sets the cooldown.
pub open spec fn spec_no_rate_limit_wait(script: Seq<AttemptOutcome>) -> bool {
    forall|i: int| 0 <= i < script.len() ==> !spec_is_rate_limit_wait(#[trigger] script[i])
}

/// What the whole retry policy returns against a script of attempt
/// outcomes, examined from attempt `k` on: the first 2xx body wins; a
/// rate-limit wait beyond the ceiling aborts at once, with no further
/// attempt; any other failure is retried until the attempt budget is spent,
/// and the last failure is then reported with its status and headers.
pub open spec fn spec_run_matches(
    script: Seq<AttemptOutcome>,
    k: int,
    r: Result<Vec<u8>, FetchError>,
) -> bool
    decreases script.len() - k,
{
    if k < 0 || k >= script.len() {
        true
    } else {
        match script[k] {
            AttemptOutcome::NetworkError => {
                if k == script.len() - 1 {
                    r matches Err(e) && e is NetworkFailure
                } else {
                    spec_run_matches(script, k + 1, r)
                }
            },
            AttemptOutcome::Response(resp) => {
                if 200 <= resp.status && resp.status <= 299 {
                    r matches Ok(b) && b@ == resp.body@
                } else if resp.status == 429 && spec_retry_after(resp.headers@)
                    > RETRY_AFTER_CEILING_S {
                    r matches Err(e) && (e matches FetchError::RateLimitAborted {
                        retry_after_s,
                    } && retry_after_s == spec_retry_after(resp.headers@))
                } else if k == script.len() - 1 {
                    r matches Err(e) && (e matches FetchError::HttpStatusFailure {
                        status,
                        headers,
                    } && status == resp.status && headers@ == resp.headers@)
                } else {
                    spec_run_matches(script, k + 1, r)
                }
            },
        }
    }
}

fn clone_bytes(v: &Vec<u8>) -> (r: Vec<u8>)
    ensures
        r@ == v@,
{
    let mut r: Vec<u8> = Vec::new();
    let mut i: usize = 0;
    while i < v.len()
        invariant
            0 <= i <= v@.len(),
            r@ == v@.subrange(0, i as int),
        decreases v@.len() - i,
    {
        r.push(v[i]);
        proof {
            assert(v@.subrange(0, i + 1) =~= v@.subrange(0, i as int).push(v@[i as int]));
        }
        i = i + 1;
    }
    proof {
        assert(v@.subrange(0, v@.len() as int) =~= v@);
    }
    r
}

fn clone_headers(v: &Vec<(String, String)>) -> (r: Vec<(String, String)>)
    ensures
        r@ == v@,
{
    let mut r: Vec<(String, String)> = Vec::new();
    let mut i: usize = 0;
    while i < v.len()
        invariant
            0 <= i <= v@.len(),
            r@ == v@.subrange(0, i as int),
        decreases v@.len() - i,
    {
        let name = v[i].0.clone();
        let value = v[i].1.clone();
        r.push((name, value));
        proof {
            assert((name, value) == v@[i as int]);
            assert(v@.subrange(0, i + 1) =~= v@.subrange(0, i as int).push(v@[i as int]));
        }
        i = i + 1;
    }
    proof {
        assert(v@.subrange(0, v@.len() as int) =~= v@);
    }
    r
}

/// On a cache hit the cached body is returned as-is and the client is left
/// untouched: the network is never consulted.
pub open spec fn spec_cache_hit_ok(
    cached: Option<Vec<u8>>,
    r: Result<Vec<u8>, FetchError>,
    pre: FetchClient,
    post: FetchClient,
) -> bool {
    match cached {
        Some(b) => r matches Ok(rb) && rb@ == b@ && post == pre,
        None => true,
    }
}

/// Everything but the cooldown register is left as it was.
pub open spec fn spec_same_but_cooldown(pre: FetchClient, post: FetchClient) -> bool {
    post.base_url == pre.base_url && post.headers == pre.headers && post.cache_ttl_s
        == pre.cache_ttl_s
}

/// Any result that the remaining attempts justify is one the whole policy
/// justifies: the attempts already spent were all retried failures.
pub open spec fn spec_prefix_preserved(script: Seq<AttemptOutcome>, k: int) -> bool {
    forall|res: Result<Vec<u8>, FetchError>|
        #[trigger] spec_run_matches(script, k, res) ==> spec_run_matches(script, 0, res)
}

/// The cooldown register after the attempts from index `k` on have run,
/// starting from `current`: every honoured rate-limit response overwrites it
/// with `now_ms` plus its wait; success, abort and other failures leave it
/// as it stands.
pub open spec fn spec_run_cooldown(
    script: Seq<AttemptOutcome>,
    k: int,
    current: Option<u64>,
    now_ms: u64,
) -> Option<u64>
    decreases script.len() - k,
{
    if k < 0 || k >= script.len() {
        current
    } else {
        match script[k] {
            AttemptOutcome::NetworkError => {
                if k == script.len() - 1 {
                    current
                } else {
                    spec_run_cooldown(script, k + 1, current, now_ms)
                }
            },
            AttemptOutcome::Response(resp) => {
                if 200 <= resp.status && resp.status <= 299 {
                    current
                } else if resp.status == 429 {
                    let ra = spec_retry_after(resp.headers@);
                    if ra > RETRY_AFTER_CEILING_S {
                        current
                    } else {
                        let set = Some((now_ms + ra * 1000) as u64);
                        if k == script.len() - 1 {
                            set
                        } else {
                            spec_run_cooldown(script, k + 1, set, now_ms)
                        }
                    }
                } else if k == script.len() - 1 {
                    current
                } else {
                    spec_run_cooldown(script, k + 1, current, now_ms)
                }
            },
        }
    }
}

/// Play the whole fetch policy against a script of attempt outcomes: a
/// cached body short-circuits everything; otherwise the attempts run under
/// the retry rules of `spec_run_matches`, and every accepted rate-limit
/// response also sets the client's cooldown for the driver to honour.
pub fn run_fetch(client: &mut FetchClient, cached: Option<Vec<u8>>, script: &Vec<AttemptOutcome>, now_ms: u64) -> (r: Result<Vec<u8>, FetchError>)
    requires
        script@.len() == MAX_ATTEMPTS,
        now_ms <= u64::MAX - RETRY_AFTER_CEILING_S * 1000,
    ensures
        spec_cache_hit_ok(cached, r, *old(client), *final(client)),
        (cached is None ==> spec_run_matches(script@, 0, r)),
        ((cached is None && spec_no_rate_limit_wait(script@)) ==> final(client).cooldown_until_ms == old(client).cooldown_until_ms),
        spec_same_but_cooldown(*old(client), *final(client)),
{
    match cached {
        Some(b) => Ok(b),
        None => run_attempts(client, script, now_ms),
    }
}

/// The attempt loop of `run_fetch`, after the cache was consulted.
fn run_attempts(client: &mut FetchClient, script: &Vec<AttemptOutcome>, now_ms: u64) -> (r: Result<Vec<u8>, FetchError>)
    requires
        script@.len() == MAX_ATTEMPTS,
        now_ms <= u64::MAX - RETRY_AFTER_CEILING_S * 1000,
    ensures
        spec_run_matches(script@, 0, r),
        final(client).cooldown_until_ms == spec_run_cooldown(
            script@,
            0,
            old(client).cooldown_until_ms,
            now_ms,
        ),
        (spec_no_rate_limit_wait(script@) ==> final(client).cooldown_until_ms == old(client).cooldown_until_ms),
        spec_same_but_cooldown(*old(client), *final(client)),
{
    let ghost c0 = *client;
    let mut k: usize = 0;
    loop
        invariant
            c0 == *old(client),
            script@.len() == MAX_ATTEMPTS,
            now_ms <= u64::MAX - RETRY_AFTER_CEILING_S * 1000,
            0 <= k < MAX_ATTEMPTS,
            spec_prefix_preserved(script@, k as int),
            spec_run_cooldown(script@, 0, c0.cooldown_until_ms, now_ms) == spec_run_cooldown(
                script@,
                k as int,
                client.cooldown_until_ms,
                now_ms,
            ),
            (spec_no_rate_limit_wait(script@) ==> client.cooldown_until_ms == c0.cooldown_until_ms),
            client.base_url == c0.base_url,
            client.headers == c0.headers,
            client.cache_ttl_s == c0.cache_ttl_s,
        decreases MAX_ATTEMPTS - k,
    {
        let last = k == MAX_ATTEMPTS - 1;
        match &script[k] {
            AttemptOutcome::NetworkError => {
                if last {
                    let r = Err::<Vec<u8>, FetchError>(FetchError::NetworkFailure);
                    proof {
                        assert(spec_run_matches(script@, k as int, r));
                    }
                    return r;
                }
            },
            AttemptOutcome::Response(resp) => {
                if 200 <= resp.status && resp.status <= 299 {
                    let r = Ok::<Vec<u8>, FetchError>(clone_bytes(&resp.body));
                    proof {
                        assert(spec_run_matches(script@, k as int, r));
                    }
                    return r;
                } else if resp.status == 429 {
                    let ra = parse_retry_after(&resp.headers);
                    let accepted = client.note_rate_limit(now_ms, ra);
                    if !accepted {
                        let r = Err::<Vec<u8>, FetchError>(
                            FetchError::RateLimitAborted { retry_after_s: ra },
                        );
                        proof {
                            assert(spec_run_matches(script@, k as int, r));
                        }
                        return r;
                    }
                    proof {
                        assert(spec_is_rate_limit_wait(script@[k as int]));
                    }
                    if last {
                        let r = Err::<Vec<u8>, FetchError>(
                            FetchError::HttpStatusFailure {
                                status: resp.status,
                                headers: clone_headers(&resp.headers),
                            },
                        );
                        proof {
                            assert(spec_run_matches(script@, k as int, r));
                        }
                        return r;
                    }
                } else {
                    if last {
                        let r = Err::<Vec<u8>, FetchError>(
                            FetchError::HttpStatusFailure {
                                status: resp.status,
                                headers: clone_headers(&resp.headers),
                            },
                        );
                        proof {
                            assert(spec_run_matches(script@, k as int, r));
                        }
                        return r;
                    }
                }
            },
        }
        proof {
            assert forall|res: Result<Vec<u8>, FetchError>|
                #[trigger] spec_run_matches(script@, k + 1, res) implies spec_run_matches(
                script@,
                0,
                res,
            ) by {
                assert(spec_run_matches(script@, k as int, res));
            }
            assert(spec_prefix_preserved(script@, k + 1));
        }
        k = k + 1;
    }
}


} // verus!
