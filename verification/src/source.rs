//! An in-memory reverse-chronological message source, and the full pagination
//! walk over it.
//!
//! `MessageSource` stands for the remote list endpoint: a newest-first store
//! answering "the latest page" and "the page strictly before this identifier".
//! `collect_range` drives the engine of `crate::pagination` over such a source
//! from start to finish, so the walk's guarantees are stated and proved here
//! once for every batch the source could serve.

use vstd::prelude::*;
use crate::digits::{dec_val, parse_u64};
use crate::errors::FetchError;
use crate::message::{spec_msg_id, Message};
use crate::pagination::{
    absorb_batch, drain_decision, initial_page_request, lemma_filtered_in_window,
    lemma_split_point_props, spec_end_cursor, spec_end_encodable, spec_end_instant, spec_filtered,
    spec_first_limit, spec_in_window, spec_remaining, spec_split_point, DrainStep, PageQuery,
    PAGE_SIZE,
};
use crate::snowflake::{spec_snowflake_unix_ms, DISCORD_EPOCH_MS};
use crate::timewin::{spec_above_start, spec_below_end, spec_contains, TimeBound, TimeWindow};
use vstd::arithmetic::div_mod::{
    lemma_div_is_ordered, lemma_div_multiples_vanish, lemma_multiply_divide_lt,
};

verus! {

/// The numeric value of a message's identifier string; meaningful when the
/// string parses.
pub open spec fn spec_id_of(m: Message) -> u64 {
    dec_val(m.id@) as u64
}

/// The first index whose item satisfies `p`, or the length when none does.
pub open spec fn spec_first_where(s: Seq<Message>, p: spec_fn(Message) -> bool) -> int
    decreases s.len(),
{
    if s.len() == 0 {
        0
    } else if p(s[0]) {
        0
    } else {
        1 + spec_first_where(s.skip(1), p)
    }
}

proof fn lemma_first_where_char(s: Seq<Message>, p: spec_fn(Message) -> bool, i: int)
    requires
        0 <= i <= s.len(),
        forall|j: int| 0 <= j < i ==> !p(#[trigger] s[j]),
        i < s.len() ==> p(s[i]),
    ensures
        spec_first_where(s, p) == i,
    decreases i,
{
    if i > 0 {
        lemma_first_where_char(s.skip(1), p, i - 1);
    }
}

proof fn lemma_first_where_props(s: Seq<Message>, p: spec_fn(Message) -> bool)
    ensures
        0 <= spec_first_where(s, p) <= s.len(),
        forall|j: int| 0 <= j < spec_first_where(s, p) ==> !p(#[trigger] s[j]),
        spec_first_where(s, p) < s.len() ==> p(s[spec_first_where(s, p)]),
    decreases s.len(),
{
    if s.len() != 0 && !p(s[0]) {
        lemma_first_where_props(s.skip(1), p);
        assert forall|j: int| 0 <= j < spec_first_where(s, p) implies !p(#[trigger] s[j]) by {
            if j > 0 {
                assert(!p(s.skip(1)[j - 1]));
            }
        }
    }
}

/// The first index holding an identifier strictly below the cursor.
pub open spec fn spec_first_below(s: Seq<Message>, cursor: u64) -> int {
    spec_first_where(s, |m: Message| spec_id_of(m) < cursor)
}

/// A well-formed source: every identifier parses, and identifiers strictly
/// decrease from newest to oldest.
pub open spec fn src_wf(s: Seq<Message>) -> bool {
    &&& (forall|i: int| 0 <= i < s.len() ==> (#[trigger] spec_msg_id(s[i])) is Some)
    &&& (forall|i: int, j: int|
        0 <= i < j < s.len() ==> spec_id_of(#[trigger] s[j]) < spec_id_of(#[trigger] s[i]))
}

/// An in-memory newest-first message store standing for the remote list
/// endpoint.
pub struct MessageSource {
    pub msgs: Vec<Message>,
}

impl MessageSource {
    /// The source holds parseable identifiers in strictly decreasing order.
    pub open spec fn wf(self) -> bool {
        src_wf(self.msgs@)
    }

    fn id_at(&self, i: usize) -> (r: u64)
        requires
            self.wf(),
            i < self.msgs@.len(),
        ensures
            r == spec_id_of(self.msgs@[i as int]),
    {
        match parse_u64(self.msgs[i].id.as_str()) {
            Some(v) => v,
            None => {
                proof {
                    assert(spec_msg_id(self.msgs@[i as int]) is Some);
                }
                vstd::pervasive::unreached()
            },
        }
    }

    /// The most recent `limit` items, newest first.
    pub fn page_latest(&self, limit: u8) -> (r: Vec<Message>)
        requires
            self.wf(),
            limit >= 1,
        ensures
            r@ == self.msgs@.take(
                if limit <= self.msgs@.len() {
                    limit as int
                } else {
                    self.msgs@.len() as int
                },
            ),
    {
        let len = self.msgs.len();
        let e = if (limit as usize) <= len {
            limit as usize
        } else {
            len
        };
        let mut r: Vec<Message> = Vec::new();
        let mut j: usize = 0;
        while j < e
            invariant
                0 <= j <= e <= len,
                len == self.msgs@.len(),
                r@ == self.msgs@.subrange(0, j as int),
            decreases e - j,
        {
            r.push(self.msgs[j].duplicate());
            proof {
                assert(self.msgs@.subrange(0, j + 1) =~= self.msgs@.subrange(0, j as int).push(
                    self.msgs@[j as int],
                ));
            }
            j = j + 1;
        }
        proof {
            assert(self.msgs@.take(e as int) =~= self.msgs@.subrange(0, e as int));
        }
        r
    }

    /// Up to `limit` items strictly before `cursor`, newest first: the page a
    /// reverse-chronological endpoint serves for a "before" request.
    pub fn page_before(&self, cursor: u64, limit: u8) -> (r: Vec<Message>)
        requires
            self.wf(),
            limit >= 1,
        ensures
            ({
                let b = spec_first_below(self.msgs@, cursor);
                let e = if b + limit <= self.msgs@.len() {
                    b + limit
                } else {
                    self.msgs@.len() as int
                };
                r@ == self.msgs@.subrange(b, e)
            }),
    {
        let len = self.msgs.len();
        let mut b: usize = 0;
        while b < len && self.id_at(b) >= cursor
            invariant
                0 <= b <= len,
                len == self.msgs@.len(),
                self.wf(),
                forall|j: int| 0 <= j < b ==> spec_id_of(#[trigger] self.msgs@[j]) >= cursor,
            decreases len - b,
        {
            b = b + 1;
        }
        proof {
            lemma_first_where_char(
                self.msgs@,
                |m: Message| spec_id_of(m) < cursor,
                b as int,
            );
        }
        let e = if len - b >= limit as usize {
            b + limit as usize
        } else {
            len
        };
        let mut r: Vec<Message> = Vec::new();
        let mut j: usize = b;
        while j < e
            invariant
                b <= j <= e <= len,
                len == self.msgs@.len(),
                r@ == self.msgs@.subrange(b as int, j as int),
            decreases e - j,
        {
            r.push(self.msgs[j].duplicate());
            proof {
                assert(self.msgs@.subrange(b as int, j + 1) =~= self.msgs@.subrange(
                    b as int,
                    j as int,
                ).push(self.msgs@[j as int]));
            }
            j = j + 1;
        }
        r
    }
}

/// The creation instant of a message in unix seconds; meaningful when its
/// identifier parses.
pub open spec fn spec_msg_ts(m: Message) -> int {
    spec_snowflake_unix_ms(spec_id_of(m)) / 1000
}

/// The first index whose item's timestamp already satisfies the window's
/// upper bound (items before it are too new).
pub open spec fn spec_first_in_end(s: Seq<Message>, end: TimeBound) -> int {
    spec_first_where(s, |m: Message| spec_below_end(end, spec_msg_ts(m)))
}

/// The first index whose item's timestamp no longer satisfies the window's
/// lower bound (it and everything after are too old).
pub open spec fn spec_first_too_old(s: Seq<Message>, start: TimeBound) -> int {
    spec_first_where(s, |m: Message| !spec_above_start(start, spec_msg_ts(m)))
}

/// The window's lower bound does not lie above its upper bound.
pub open spec fn spec_window_aligned(w: TimeWindow) -> bool {
    match (w.start, w.end) {
        (TimeBound::Unbounded, _) => true,
        (_, TimeBound::Unbounded) => true,
        (TimeBound::Included(t0), TimeBound::Included(e)) => t0 <= e,
        (TimeBound::Included(t0), TimeBound::Excluded(e)) => t0 <= e,
        (TimeBound::Excluded(t0), TimeBound::Included(e)) => t0 < e,
        (TimeBound::Excluded(t0), TimeBound::Excluded(e)) => t0 < e,
    }
}

proof fn lemma_in_window_is_contains(w: TimeWindow, m: Message)
    requires
        spec_msg_id(m) is Some,
    ensures
        spec_in_window(w, m) == spec_contains(w, spec_msg_ts(m)),
{
}

proof fn lemma_ts_monotone(s: Seq<Message>, i: int, j: int)
    requires
        src_wf(s),
        0 <= i <= j < s.len(),
    ensures
        spec_msg_ts(s[j]) <= spec_msg_ts(s[i]),
{
    let idi = spec_id_of(s[i]);
    let idj = spec_id_of(s[j]);
    assert(idj <= idi);
    assert(idj >> 22 <= idi >> 22) by (bit_vector)
        requires
            idj <= idi,
    ;
    lemma_div_is_ordered((idj >> 22) + DISCORD_EPOCH_MS, (idi >> 22) + DISCORD_EPOCH_MS, 1000);
}

/// Law: in a well-formed reverse-chronological source under an aligned
/// window, the in-window items form one contiguous segment: exactly the
/// indices from the first item below the upper bound up to the first item
/// below the lower bound.
pub proof fn lemma_window_segment(s: Seq<Message>, w: TimeWindow)
    requires
        src_wf(s),
        spec_window_aligned(w),
    ensures
        0 <= spec_first_in_end(s, w.end) <= spec_first_too_old(s, w.start) <= s.len(),
        forall|j: int|
            0 <= j < s.len() ==> (spec_in_window(w, #[trigger] s[j]) <==> spec_first_in_end(
                s,
                w.end,
            ) <= j < spec_first_too_old(s, w.start)),
{
    let pe = |m: Message| spec_below_end(w.end, spec_msg_ts(m));
    let po = |m: Message| !spec_above_start(w.start, spec_msg_ts(m));
    lemma_first_where_props(s, pe);
    lemma_first_where_props(s, po);
    let a = spec_first_where(s, pe);
    let b = spec_first_where(s, po);
    if b < a {
        assert(pe(s[a - 1]) == false);
        assert(po(s[b]));
        lemma_ts_monotone(s, b, a - 1);
        assert(false);
    }
    assert forall|j: int| 0 <= j < s.len() implies (spec_in_window(w, #[trigger] s[j]) <==> a <= j
        < b) by {
        lemma_in_window_is_contains(w, s[j]);
        if j < a {
            assert(!pe(s[j]));
        } else if j < b {
            assert(!po(s[j]));
            if j > a {
                lemma_ts_monotone(s, a, j);
                assert(pe(s[a]));
            } else {
                assert(pe(s[a]));
            }
        } else {
            assert(po(s[b]));
            lemma_ts_monotone(s, b, j);
        }
    }
}

/// Every item at or after the cut index carries an identifier below the
/// cursor.
proof fn lemma_below_after_first(s: Seq<Message>, c: u64)
    requires
        src_wf(s),
    ensures
        forall|j: int|
            spec_first_below(s, c) <= j < s.len() ==> spec_id_of(#[trigger] s[j]) < c,
{
    let p = |m: Message| spec_id_of(m) < c;
    lemma_first_where_props(s, p);
    let fb = spec_first_where(s, p);
    assert forall|j: int| fb <= j < s.len() implies spec_id_of(#[trigger] s[j]) < c by {
        assert(p(s[fb]));
        if j > fb {
            assert(spec_id_of(s[j]) < spec_id_of(s[fb]));
        }
    }
}

/// Paging before the identifier at index `k` resumes exactly at index `k+1`.
proof fn lemma_first_below_at(s: Seq<Message>, k: int)
    requires
        src_wf(s),
        0 <= k < s.len(),
    ensures
        spec_first_below(s, spec_id_of(s[k])) == k + 1,
{
    let c = spec_id_of(s[k]);
    let p = |m: Message| spec_id_of(m) < c;
    assert forall|j: int| 0 <= j < k + 1 implies !p(#[trigger] s[j]) by {
        if j < k {
            assert(spec_id_of(s[k]) < spec_id_of(s[j]));
        }
    }
    if k + 1 < s.len() {
        assert(spec_id_of(s[k + 1]) < spec_id_of(s[k]));
    }
    lemma_first_where_char(s, p, k + 1);
}

/// An identifier lies below an encodable bound's synthetic cursor exactly
/// when its timestamp lies strictly below the bound instant.
proof fn lemma_cursor_cut(s: Seq<Message>, e: i64)
    requires
        src_wf(s),
        spec_end_encodable(e as int),
    ensures
        forall|j: int|
            0 <= j < s.len() ==> (spec_id_of(#[trigger] s[j]) < spec_end_cursor(e as int) <==>
                spec_msg_ts(s[j]) < e),
{
    let c = spec_end_cursor(e as int);
    let off = (e * 1000 - DISCORD_EPOCH_MS) as u64;
    assert(e >= 1);
    assert forall|j: int| 0 <= j < s.len() implies (spec_id_of(#[trigger] s[j]) < c <==>
        spec_msg_ts(s[j]) < e) by {
        let id = spec_id_of(s[j]);
        assert(id < (off << 22) <==> (id >> 22) < off) by (bit_vector)
            requires
                off < 0x400_0000_0000u64,
        ;
        let x = (id >> 22) + DISCORD_EPOCH_MS;
        assert(x >= 0);
        if x < e * 1000 {
            lemma_multiply_divide_lt(x, 1000, e as int);
            assert(x / 1000 < e);
        }
        if x / 1000 < e {
            if x >= e * 1000 {
                lemma_div_is_ordered(e * 1000, x, 1000);
                lemma_div_multiples_vanish(e as int, 1000);
                assert(false);
            }
        }
    }
}

/// Law: an encodable exclusive upper bound and its synthetic cursor cut the
/// source at the same index: an identifier lies below the cursor exactly when
/// its timestamp lies below the bound.
pub proof fn lemma_cursor_matches_end(s: Seq<Message>, e: i64)
    requires
        src_wf(s),
        spec_end_encodable(e as int),
    ensures
        spec_first_below(s, spec_end_cursor(e as int)) == spec_first_in_end(
            s,
            TimeBound::Excluded(e),
        ),
{
    let c = spec_end_cursor(e as int);
    lemma_cursor_cut(s, e);
    let pb = |m: Message| spec_id_of(m) < c;
    let pe = |m: Message| spec_below_end(TimeBound::Excluded(e), spec_msg_ts(m));
    lemma_first_where_props(s, pb);
    let fb = spec_first_where(s, pb);
    assert forall|j: int| 0 <= j < fb implies !pe(#[trigger] s[j]) by {
        assert(!pb(s[j]));
    }
    if fb < s.len() {
        assert(pb(s[fb]));
        assert(pe(s[fb]));
    }
    lemma_first_where_char(s, pe, fb);
}

/// The in-window items at or past a cut that already satisfies the upper
/// bound are exactly those before the first too-old index.
proof fn lemma_segment_from(s: Seq<Message>, w: TimeWindow, a: int)
    requires
        src_wf(s),
        0 <= a <= s.len(),
        forall|j: int| a <= j < s.len() ==> spec_below_end(w.end, spec_msg_ts(#[trigger] s[j])),
        forall|j: int| 0 <= j < a ==> spec_above_start(w.start, spec_msg_ts(#[trigger] s[j])),
    ensures
        a <= spec_first_too_old(s, w.start) <= s.len(),
        forall|j: int|
            a <= j < s.len() ==> (spec_in_window(w, #[trigger] s[j]) <==> j < spec_first_too_old(
                s,
                w.start,
            )),
{
    let po = |m: Message| !spec_above_start(w.start, spec_msg_ts(m));
    lemma_first_where_props(s, po);
    let b = spec_first_where(s, po);
    if b < a {
        assert(po(s[b]));
        assert(spec_above_start(w.start, spec_msg_ts(s[b])));
    }
    assert forall|j: int| a <= j < s.len() implies (spec_in_window(w, #[trigger] s[j]) <==> j
        < b) by {
        lemma_in_window_is_contains(w, s[j]);
        if j < b {
            assert(!po(s[j]));
        } else {
            assert(po(s[b]));
            lemma_ts_monotone(s, b, j);
            match w.start {
                TimeBound::Included(t0) => {
                    assert(spec_msg_ts(s[b]) < t0);
                },
                TimeBound::Excluded(t0) => {
                    assert(spec_msg_ts(s[b]) <= t0);
                },
                TimeBound::Unbounded => {
                    assert(false);
                },
            }
        }
    }
}

/// Everything from the walk's cut on satisfies the window's upper bound:
/// for a bounded end because its identifier lies below the cursor, for an
/// unbounded end trivially.
proof fn lemma_below_end_after_cut(s: Seq<Message>, w: TimeWindow)
    requires
        src_wf(s),
        spec_end_instant(w) matches Some(e) ==> spec_end_encodable(e as int),
    ensures
        0 <= spec_start_idx(s, w) <= s.len(),
        forall|j: int|
            spec_start_idx(s, w) <= j < s.len() ==> spec_below_end(
                w.end,
                spec_msg_ts(#[trigger] s[j]),
            ),
{
    match spec_end_instant(w) {
        None => {
            assert(spec_start_idx(s, w) == 0);
        },
        Some(e) => {
            let c = spec_end_cursor(e as int);
            lemma_cursor_cut(s, e);
            let pb = |m: Message| spec_id_of(m) < c;
            lemma_first_where_props(s, pb);
            let a = spec_first_where(s, pb);
            assert(a == spec_start_idx(s, w));
            lemma_below_after_first(s, c);
            assert forall|j: int| a <= j < s.len() implies spec_below_end(
                w.end,
                spec_msg_ts(#[trigger] s[j]),
            ) by {
                assert(spec_id_of(s[j]) < c);
                assert(spec_msg_ts(s[j]) < e);
            }
        },
    }
}

/// Facts about where the walk's cut lands: everything from the cut on
/// satisfies the upper bound, and everything before it still satisfies the
/// lower bound.
proof fn lemma_start_cut_facts(s: Seq<Message>, w: TimeWindow)
    requires
        src_wf(s),
        spec_window_aligned(w),
        spec_end_instant(w) matches Some(e) ==> spec_end_encodable(e as int),
    ensures
        0 <= spec_start_idx(s, w) <= s.len(),
        forall|j: int|
            spec_start_idx(s, w) <= j < s.len() ==> spec_below_end(
                w.end,
                spec_msg_ts(#[trigger] s[j]),
            ),
        forall|j: int|
            0 <= j < spec_start_idx(s, w) ==> spec_above_start(
                w.start,
                spec_msg_ts(#[trigger] s[j]),
            ),
{
    lemma_below_end_after_cut(s, w);
    match spec_end_instant(w) {
        None => {},
        Some(e) => {
            let c = spec_end_cursor(e as int);
            lemma_cursor_cut(s, e);
            let pb = |m: Message| spec_id_of(m) < c;
            lemma_first_where_props(s, pb);
            let a = spec_first_where(s, pb);
            assert(a == spec_start_idx(s, w));
            assert forall|j: int| 0 <= j < a implies spec_above_start(
                w.start,
                spec_msg_ts(#[trigger] s[j]),
            ) by {
                assert(!pb(s[j]));
                assert(spec_msg_ts(s[j]) >= e);
            }
        },
    }
}

/// Once an item that already satisfies the upper bound falls outside the
/// window, everything at or after it does too: its timestamp fell below the
/// lower bound, and timestamps only fall from there on.
proof fn lemma_out_propagates(s: Seq<Message>, w: TimeWindow, j: int)
    requires
        src_wf(s),
        0 <= j < s.len(),
        !spec_in_window(w, s[j]),
        spec_below_end(w.end, spec_msg_ts(s[j])),
    ensures
        forall|k: int| j <= k < s.len() ==> !spec_in_window(w, #[trigger] s[k]),
{
    lemma_in_window_is_contains(w, s[j]);
    assert(!spec_above_start(w.start, spec_msg_ts(s[j])));
    assert forall|k: int| j <= k < s.len() implies !spec_in_window(w, #[trigger] s[k]) by {
        lemma_in_window_is_contains(w, s[k]);
        lemma_ts_monotone(s, j, k);
        match w.start {
            TimeBound::Included(t0) => {
                assert(spec_msg_ts(s[j]) < t0);
            },
            TimeBound::Excluded(t0) => {
                assert(spec_msg_ts(s[j]) <= t0);
            },
            TimeBound::Unbounded => {},
        }
    }
}

/// Where the walk stops in the source: the item budget spent, or the first
/// too-old item, whichever comes first.
pub open spec fn spec_harvest_stop(s: Seq<Message>, w: TimeWindow, limit: Option<usize>) -> int {
    let a = spec_start_idx(s, w);
    let b = spec_first_too_old(s, w.start);
    match limit {
        None => b,
        Some(l) => if a + l < b {
            a + l
        } else {
            b
        },
    }
}

/// Where the walk starts in the source: index 0 when the window has no upper
/// bound, else the cut made by the synthetic cursor for that bound.
pub open spec fn spec_start_idx(s: Seq<Message>, w: TimeWindow) -> int {
    match spec_end_instant(w) {
        None => 0,
        Some(e) => spec_first_below(s, spec_end_cursor(e as int)),
    }
}


/// What one absorbed batch `s.subrange(lo, m)` contributes: a further
/// contiguous segment of in-window items, and, when it keeps less than a full
/// page, the reason the walk may stop there.
proof fn lemma_absorbed_segment(s: Seq<Message>, w: TimeWindow, lo: int, m: int)
    requires
        0 <= lo <= m <= s.len(),
        m - lo <= PAGE_SIZE,
    ensures
        ({
            let f = spec_filtered(w, s.subrange(lo, m));
            &&& 0 <= f.len() <= m - lo
            &&& f == s.subrange(lo, lo + f.len())
            &&& (forall|j: int| lo <= j < lo + f.len() ==> spec_in_window(w, #[trigger] s[j]))
            &&& (f.len() < PAGE_SIZE ==> (lo + f.len() == m || !spec_in_window(
                w,
                s[lo + f.len()],
            )))
        }),
{
    let batch = s.subrange(lo, m);
    let sp = spec_split_point(w, batch);
    lemma_split_point_props(w, batch);
    lemma_filtered_in_window(w, batch);
    let f = spec_filtered(w, batch);
    if sp < PAGE_SIZE {
        assert(f =~= s.subrange(lo, lo + sp));
        assert forall|j: int| lo <= j < lo + f.len() implies spec_in_window(w, #[trigger] s[j]) by {
            assert(spec_in_window(w, batch[j - lo]));
        }
        if lo + sp < m {
            assert(!spec_in_window(w, batch[sp]));
        }
    } else {
        assert(f =~= s.subrange(lo, m));
        assert forall|j: int| lo <= j < lo + f.len() implies spec_in_window(w, #[trigger] s[j]) by {
            assert(spec_in_window(w, batch[j - lo]));
        }
    }
}

/// Lift the per-item cursor bound onto a collected prefix.
proof fn lemma_p1_result(s: Seq<Message>, w: TimeWindow, b0: int, v: Seq<Message>)
    requires
        src_wf(s),
        b0 == spec_start_idx(s, w),
        0 <= b0,
        b0 + v.len() <= s.len(),
        v == s.subrange(b0, b0 + v.len()),
    ensures
        spec_end_instant(w) matches Some(e) ==> (forall|i: int|
            0 <= i < v.len() ==> spec_id_of(#[trigger] v[i]) < spec_end_cursor(e as int)),
{
    match spec_end_instant(w) {
        Some(e) => {
            let c = spec_end_cursor(e as int);
            lemma_below_after_first(s, c);
            assert forall|i: int| 0 <= i < v.len() implies spec_id_of(#[trigger] v[i]) < c by {
                assert(v[i] == s[b0 + i]);
            }
        },
        None => {},
    }
}


/// Walk one source over a time window: convert the window's upper bound into
/// a synthetic cursor, request pages newest-first, keep each batch's
/// in-window prefix, and follow the last kept item's identifier until the
/// window, the source or the item budget is exhausted.
///
/// Every returned item lies inside the window and, when the window's upper
/// bound gave a cursor, carries an identifier strictly below it.  For every
/// aligned window the result is exact: the source's in-window segment below
/// the cursor, newest first, cut at the item budget when one is given
/// (`spec_harvest_stop`; `lemma_window_segment` names the segment).  An
/// inclusive upper bound keeps this shape but can miss boundary items whose
/// identifiers lie at or past the synthetic cursor.
///
/// `requests` counts the page requests issued: at most two beyond one per
/// hundred returned items, since every page before the last two comes back
/// full and fully in-window.
#[verifier::rlimit(100)]
pub fn collect_range(
    src: &MessageSource,
    w: &TimeWindow,
    limit: Option<usize>,
    requests: &mut usize,
) -> (r: Result<Vec<Message>, FetchError>)
    requires
        src.wf(),
        limit matches Some(l) ==> l >= 1,
    ensures
        r matches Ok(v) ==> *final(requests) <= v@.len() / 100 + 2,
        r is Err ==> *final(requests) == 0,
        r is Ok <==> (match spec_end_instant(*w) {
            None => true,
            Some(e) => spec_end_encodable(e as int),
        }),
        r matches Err(err) ==> err is WindowComputationFailure,
        r matches Ok(v) ==> (forall|i: int|
            0 <= i < v@.len() ==> spec_in_window(*w, #[trigger] v@[i])),
        r matches Ok(v) ==> (limit matches Some(l) ==> v@.len() <= l),
        spec_end_instant(*w) matches Some(e) ==> (spec_end_encodable(e as int) ==> (r matches Ok(v)
            && (forall|i: int|
            0 <= i < v@.len() ==> spec_id_of(#[trigger] v@[i]) < spec_end_cursor(e as int)))),
        r matches Ok(v) ==> (spec_window_aligned(*w) ==> v@ == src.msgs@.subrange(
            spec_start_idx(src.msgs@, *w),
            spec_harvest_stop(src.msgs@, *w, limit),
        )),
{
    *requests = 0;
    let ghost s = src.msgs@;
    let ghost b0 = spec_start_idx(s, *w);
    let q = match initial_page_request(w, limit) {
        Ok(q) => q,
        Err(e) => {
            proof {
                match spec_end_instant(*w) {
                    Some(e2) => {
                        assert(!spec_end_encodable(e2 as int));
                    },
                    None => {
                        assert(false);
                    },
                }
            }
            return Err(e);
        },
    };
    proof {
        assert(spec_first_limit(limit) >= 1);
        match spec_end_instant(*w) {
            Some(e) => {
                assert(spec_end_encodable(e as int));
            },
            None => {},
        }
        if spec_end_instant(*w) is Some {
            lemma_first_where_props(
                s,
                |m: Message| spec_id_of(m) < spec_end_cursor(
                    spec_end_instant(*w)->Some_0 as int,
                ),
            );
        }
    }
    *requests = 1;
    let batch = match q {
        PageQuery::Latest { limit: cap } => {
            let b = src.page_latest(cap);
            proof {
                assert(b@ =~= s.subrange(
                    0,
                    if cap <= s.len() {
                        cap as int
                    } else {
                        s.len() as int
                    },
                ));
            }
            b
        },
        PageQuery::Before { cursor, limit: cap } => src.page_before(cursor, cap),
    };
    let ghost m0 = b0 + batch@.len();
    proof {
        assert(batch@ == s.subrange(b0, m0));
        assert(m0 - b0 <= spec_first_limit(limit));
        assert(m0 == b0 ==> b0 == s.len());
        assert(m0 - b0 < spec_first_limit(limit) ==> m0 == s.len());
    }
    let mut messages: Vec<Message> = Vec::new();
    let grew = absorb_batch(&mut messages, batch, w);
    proof {
        lemma_absorbed_segment(s, *w, b0, m0);
        assert(messages@ =~= s.subrange(b0, b0 + messages@.len()));
        lemma_p1_result(s, *w, b0, messages@);
    }
    if messages.len() == 0 {
        proof {
            if spec_window_aligned(*w) {
                lemma_start_cut_facts(s, *w);
                lemma_segment_from(s, *w, b0);
                let b = spec_first_too_old(s, w.start);
                let stop = spec_harvest_stop(s, *w, limit);
                if m0 == b0 {
                    assert(b0 == s.len());
                    assert(b == b0);
                } else {
                    assert(!spec_in_window(*w, s[b0]));
                    assert(b == b0);
                }
                assert(stop == b0);
                assert(messages@ =~= s.subrange(b0, stop));
            }
        }
        return Ok(messages);
    }
    if messages.len() < PAGE_SIZE {
        proof {
            let hi = b0 + messages@.len();
            if spec_window_aligned(*w) {
                lemma_start_cut_facts(s, *w);
                lemma_segment_from(s, *w, b0);
                let b = spec_first_too_old(s, w.start);
                let stop = spec_harvest_stop(s, *w, limit);
                assert(spec_in_window(*w, s[hi - 1]));
                assert(hi <= b);
                assert(hi - b0 <= spec_first_limit(limit));
                assert(hi <= stop);
                if hi < m0 {
                    assert(!spec_in_window(*w, s[hi]));
                    assert(hi >= b);
                } else {
                    if m0 - b0 < spec_first_limit(limit) {
                        assert(m0 == s.len());
                        assert(b <= hi);
                    } else {
                        assert(hi - b0 == spec_first_limit(limit));
                        assert(spec_first_limit(limit) < PAGE_SIZE);
                        match limit {
                            Some(l) => {
                                assert(hi == b0 + l);
                            },
                            None => {
                                assert(false);
                            },
                        }
                    }
                }
                assert(hi == stop);
                assert(messages@ =~= s.subrange(b0, stop));
            }
            assert forall|i: int| 0 <= i < messages@.len() implies spec_in_window(
                *w,
                #[trigger] messages@[i],
            ) by {
                assert(messages@[i] == s[b0 + i]);
            }
        }
        return Ok(messages);
    }
    proof {
        if spec_window_aligned(*w) {
            lemma_start_cut_facts(s, *w);
            lemma_segment_from(s, *w, b0);
            let hi = b0 + messages@.len();
            assert(spec_in_window(*w, s[hi - 1]));
            assert(hi <= spec_first_too_old(s, w.start));
            assert(hi - b0 <= spec_first_limit(limit));
            assert(hi <= spec_harvest_stop(s, *w, limit));
        }
        assert forall|i: int| 0 <= i < messages@.len() implies spec_in_window(
            *w,
            #[trigger] messages@[i],
        ) by {
            assert(messages@[i] == s[b0 + i]);
        }
        assert(messages@.len() == 100);
    }
    let ghost mut partial: bool = false;
    loop
        invariant
            src.wf(),
            s == src.msgs@,
            b0 == spec_start_idx(s, *w),
            spec_end_instant(*w) matches Some(e) ==> spec_end_encodable(e as int),
            0 <= b0,
            b0 + messages@.len() <= s.len(),
            messages@ == s.subrange(b0, b0 + messages@.len()),
            messages@.len() >= 1,
            forall|j: int| b0 <= j < b0 + messages@.len() ==> spec_in_window(*w, #[trigger] s[j]),
            limit matches Some(l) ==> (l >= 1 && messages@.len() <= l),
            spec_window_aligned(*w) ==> b0 + messages@.len() <= spec_harvest_stop(
                s,
                *w,
                limit,
            ),
            1 <= *requests,
            !partial ==> messages@.len() == 100 * *requests,
            partial ==> 100 * (*requests - 1) + 1 <= messages@.len(),
            partial ==> ((forall|k: int|
                b0 + messages@.len() <= k < s.len() ==> !spec_in_window(
                    *w,
                    #[trigger] s[k],
                )) || (limit matches Some(l2) && messages@.len() == l2)),
        decreases s.len() - messages@.len(),
    {
        let ghost len0 = messages@.len() as int;
        let ghost hi = b0 + len0;
        let mlen = messages.len();
        match drain_decision(&messages, limit, w) {
            DrainStep::Stop => {
                proof {
                    if spec_window_aligned(*w) {
                        lemma_start_cut_facts(s, *w);
                        lemma_segment_from(s, *w, b0);
                        let b = spec_first_too_old(s, w.start);
                        let stop = spec_harvest_stop(s, *w, limit);
                        assert(messages@.last() == s[hi - 1]);
                        assert(spec_in_window(*w, s[hi - 1]));
                        match limit {
                            None => {
                                assert(false);
                            },
                            Some(l) => {
                                assert(len0 == l);
                                assert(hi == b0 + l);
                                assert(hi <= stop);
                                assert(stop <= b0 + l || stop <= b);
                                if b0 + l < b {
                                    assert(stop == b0 + l);
                                } else {
                                    assert(stop == b);
                                    assert(b <= b0 + l);
                                }
                                assert(hi == stop);
                            },
                        }
                        assert(messages@ =~= s.subrange(b0, stop));
                    }
                    let n = messages@.len() as int;
                    if partial {
                        assert(100 * (*requests - 1) <= n);
                        lemma_div_is_ordered(100 * (*requests - 1), n, 100);
                        lemma_div_multiples_vanish(*requests - 1, 100);
                        assert(*requests - 1 <= n / 100);
                    } else {
                        assert(n == 100 * *requests);
                        lemma_div_multiples_vanish(*requests as int, 100);
                        assert(*requests == n / 100);
                    }
                    lemma_p1_result(s, *w, b0, messages@);
                    assert forall|i: int| 0 <= i < messages@.len() implies spec_in_window(
                        *w,
                        #[trigger] messages@[i],
                    ) by {
                        assert(messages@[i] == s[b0 + i]);
                    }
                }
                return Ok(messages);
            },
            DrainStep::Fetch { cursor, limit: cap } => {
                proof {
                    assert(messages@.last() == s[hi - 1]);
                    assert(cursor == spec_id_of(s[hi - 1]));
                    lemma_first_below_at(s, hi - 1);
                    assert(len0 == mlen <= usize::MAX);
                    if partial {
                        assert(100 * (*requests - 1) < len0);
                    } else {
                        assert(100 * *requests == len0);
                    }
                    assert(*requests < usize::MAX);
                }
                *requests = *requests + 1;
                let batch = src.page_before(cursor, cap);
                let ghost m = hi + batch@.len();
                proof {
                    assert(batch@ == s.subrange(hi, m));
                    assert(m - hi <= cap);
                    assert(m == hi ==> hi == s.len());
                }
                let grew = absorb_batch(&mut messages, batch, w);
                proof {
                    lemma_absorbed_segment(s, *w, hi, m);
                    assert(messages@ =~= s.subrange(b0, b0 + messages@.len()));
                    if spec_window_aligned(*w) {
                        lemma_start_cut_facts(s, *w);
                        lemma_segment_from(s, *w, b0);
                        let b = spec_first_too_old(s, w.start);
                        let stop = spec_harvest_stop(s, *w, limit);
                        let hi2 = b0 + messages@.len();
                        if hi2 > hi {
                            assert(spec_in_window(*w, s[hi2 - 1]));
                            assert(hi2 <= b);
                        }
                        match limit {
                            None => {
                                assert(hi2 <= stop);
                            },
                            Some(l) => {
                                assert(hi2 <= b0 + l);
                                assert(hi2 <= stop);
                            },
                        }
                    }
                }
                if !grew {
                    proof {
                        if spec_window_aligned(*w) {
                            let b = spec_first_too_old(s, w.start);
                            let stop = spec_harvest_stop(s, *w, limit);
                            if hi < m {
                                assert(!spec_in_window(*w, s[hi]));
                                assert(hi >= b);
                            } else {
                                assert(hi == s.len());
                                assert(b <= hi);
                            }
                            assert(stop <= b);
                            assert(hi <= stop);
                            assert(hi == stop);
                            assert(messages@ =~= s.subrange(b0, stop));
                        }
                        let n = messages@.len() as int;
                        assert(n == len0);
                        if partial {
                            assert(100 * (*requests - 2) <= n - 1);
                            lemma_div_is_ordered(100 * (*requests - 2), n, 100);
                            lemma_div_multiples_vanish(*requests - 2, 100);
                            assert(*requests - 2 <= n / 100);
                        } else {
                            assert(n == 100 * (*requests - 1));
                            lemma_div_multiples_vanish(*requests - 1, 100);
                            assert(*requests - 1 == n / 100);
                        }
                        lemma_p1_result(s, *w, b0, messages@);
                        assert forall|i: int| 0 <= i < messages@.len() implies spec_in_window(
                            *w,
                            #[trigger] messages@[i],
                        ) by {
                            assert(messages@[i] == s[b0 + i]);
                        }
                    }
                    return Ok(messages);
                }
                proof {
                    let flen = messages@.len() - len0;
                    assert(flen >= 1);
                    if partial {
                        match limit {
                            Some(l2) => {
                                if len0 == l2 {
                                    assert(false);
                                }
                            },
                            None => {},
                        }
                        assert(spec_in_window(*w, s[hi]));
                        assert(false);
                    }
                    assert(len0 == 100 * (*requests - 1));
                    if flen < 100 {
                        partial = true;
                        assert(100 * (*requests - 1) + 1 <= messages@.len());
                        if hi + flen < m {
                            assert(!spec_in_window(*w, s[hi + flen]));
                            lemma_below_end_after_cut(s, *w);
                            assert(spec_below_end(w.end, spec_msg_ts(s[hi + flen])));
                            lemma_out_propagates(s, *w, hi + flen);
                            assert(forall|k: int|
                                b0 + messages@.len() <= k < s.len() ==> !spec_in_window(
                                    *w,
                                    #[trigger] s[k],
                                ));
                        } else {
                            assert(hi + flen == m);
                            if m == s.len() {
                                assert(forall|k: int|
                                    b0 + messages@.len() <= k < s.len() ==> !spec_in_window(
                                        *w,
                                        #[trigger] s[k],
                                    ));
                            } else {
                                assert(m == hi + cap);
                                assert(flen == cap);
                                assert(cap == spec_remaining(limit, len0));
                                match limit {
                                    Some(l2) => {
                                        assert(cap == l2 - len0);
                                        assert(messages@.len() == l2);
                                    },
                                    None => {
                                        assert(false);
                                    },
                                }
                            }
                        }
                    } else {
                        assert(flen <= cap <= 100);
                        assert(flen == 100);
                        assert(messages@.len() == 100 * *requests);
                    }
                }
            },
        }
    }
}

} // verus!
