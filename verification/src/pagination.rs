//! The cursor pagination engine: walking a reverse-chronological, cursor-based
//! list newest-first, keeping exactly the items whose timestamps fall in a
//! caller-supplied time window, bounded by an optional item budget.
//!
//! The decision functions here are pure; a driver (here `collect_range` over an
//! in-memory source, or an I/O loop elsewhere) alternates them with page
//! fetches.  A real drain loop also consults `drain_timed_out` against its
//! monotonic clock; every function here terminates on its own.

use vstd::prelude::*;
use crate::digits::{parse_u64, parses_as_u64};
use crate::errors::FetchError;
use crate::message::{spec_msg_id, spec_msg_ts_secs, Message};
use crate::snowflake::DISCORD_EPOCH_MS;
use crate::timewin::{spec_contains, TimeBound, TimeWindow};

verus! {

/// The page size the remote list endpoint serves at most.
pub const PAGE_SIZE: usize = 100;

/// The wall-clock safety ceiling of one drain loop: five minutes, in
/// milliseconds.
pub const DRAIN_TIMEOUT_MS: u64 = 5 * 60 * 1000;

/// Whether the drain loop's safety cutoff has tripped: the loop began at
/// `started_ms` and it is now `now_ms` on the same monotonic clock.  A clock
/// that reads earlier than the start counts as no time elapsed.
pub fn drain_timed_out(started_ms: u64, now_ms: u64) -> (r: bool)
    ensures
        r == (started_ms <= now_ms && now_ms - started_ms >= DRAIN_TIMEOUT_MS),
{
    now_ms >= started_ms && now_ms - started_ms >= DRAIN_TIMEOUT_MS
}

/// Whether a message's derived timestamp is decodable and inside the window.
pub open spec fn spec_in_window(w: TimeWindow, m: Message) -> bool {
    match spec_msg_ts_secs(m) {
        Some(t) => spec_contains(w, t),
        None => false,
    }
}

/// Whether instant `t` lies inside the window, for a message.
pub fn msg_in_window(m: &Message, w: &TimeWindow) -> (r: bool)
    ensures
        r == spec_in_window(*w, *m),
{
    match m.timestamp() {
        Ok(t) => w.contains(t),
        Err(_) => false,
    }
}

/// The partition point of a batch: how many leading items lie inside the
/// window.
pub open spec fn spec_split_point(w: TimeWindow, s: Seq<Message>) -> int
    decreases s.len(),
{
    if s.len() == 0 {
        0
    } else if !spec_in_window(w, s[0]) {
        0
    } else {
        1 + spec_split_point(w, s.skip(1))
    }
}

proof fn lemma_split_point_char(w: TimeWindow, s: Seq<Message>, i: int)
    requires
        0 <= i <= s.len(),
        forall|j: int| 0 <= j < i ==> spec_in_window(w, #[trigger] s[j]),
        i < s.len() ==> !spec_in_window(w, s[i]),
    ensures
        spec_split_point(w, s) == i,
    decreases i,
{
    if i == 0 {
    } else {
        assert(spec_in_window(w, s[0]));
        lemma_split_point_char(w, s.skip(1), i - 1);
    }
}

/// Facts that pin down the partition point.
pub proof fn lemma_split_point_props(w: TimeWindow, s: Seq<Message>)
    ensures
        0 <= spec_split_point(w, s) <= s.len(),
        forall|j: int|
            0 <= j < spec_split_point(w, s) ==> spec_in_window(w, #[trigger] s[j]),
        spec_split_point(w, s) < s.len() ==> !spec_in_window(w, s[spec_split_point(w, s)]),
    decreases s.len(),
{
    if s.len() != 0 && spec_in_window(w, s[0]) {
        lemma_split_point_props(w, s.skip(1));
        assert forall|j: int| 0 <= j < spec_split_point(w, s) implies spec_in_window(
            w,
            #[trigger] s[j],
        ) by {
            if j > 0 {
                assert(spec_in_window(w, s.skip(1)[j - 1]));
            }
        }
    }
}

/// Compute the partition point of a batch.
pub fn split_point(batch: &Vec<Message>, w: &TimeWindow) -> (i: usize)
    ensures
        i == spec_split_point(*w, batch@),
{
    let len = batch.len();
    let mut i: usize = 0;
    while i < len
        invariant
            0 <= i <= len,
            len == batch@.len(),
            forall|j: int| 0 <= j < i ==> spec_in_window(*w, #[trigger] batch@[j]),
        decreases len - i,
    {
        if !msg_in_window(&batch[i], w) {
            proof {
                lemma_split_point_char(*w, batch@, i as int);
            }
            return i;
        }
        i = i + 1;
    }
    proof {
        lemma_split_point_char(*w, batch@, i as int);
    }
    i
}

/// What the batch filter keeps: the in-window prefix when the partition point
/// falls short of the full page size (the window boundary lies inside the
/// batch), the whole batch otherwise.
pub open spec fn spec_filtered(w: TimeWindow, batch: Seq<Message>) -> Seq<Message> {
    let sp = spec_split_point(w, batch);
    if sp < PAGE_SIZE {
        batch.take(sp)
    } else {
        batch
    }
}

/// Truncate a batch to its in-window prefix when the window boundary lies
/// inside it.
pub fn filter_to_window(batch: Vec<Message>, w: &TimeWindow) -> (r: Vec<Message>)
    ensures
        r@ == spec_filtered(*w, batch@),
{
    let ghost orig = batch@;
    let sp = split_point(&batch, w);
    proof {
        lemma_split_point_props(*w, orig);
    }
    if sp < PAGE_SIZE {
        let mut b = batch;
        b.truncate(sp);
        proof {
            assert(b@ =~= orig.take(sp as int));
        }
        b
    } else {
        batch
    }
}

/// Every item the filter keeps lies inside the window.
pub proof fn lemma_filtered_in_window(w: TimeWindow, batch: Seq<Message>)
    requires
        batch.len() <= PAGE_SIZE,
    ensures
        forall|j: int|
            0 <= j < spec_filtered(w, batch).len() ==> spec_in_window(
                w,
                #[trigger] spec_filtered(w, batch)[j],
            ),
{
    lemma_split_point_props(w, batch);
    let sp = spec_split_point(w, batch);
    if sp >= PAGE_SIZE {
        assert(sp == batch.len());
    }
}

/// The one page request that opens a source's walk.
#[derive(Clone, Copy, Debug, PartialEq, Eq, Structural)]
pub enum PageQuery {
    /// Ask for the most recent items, no cursor.
    Latest { limit: u8 },
    /// Ask for the items strictly before the cursor identifier.
    Before { cursor: u64, limit: u8 },
}

/// The size of the first page: the item budget when it is smaller than a full
/// page, a full page otherwise.
pub open spec fn spec_first_limit(limit: Option<usize>) -> int {
    match limit {
        Some(l) => if l < PAGE_SIZE {
            l as int
        } else {
            PAGE_SIZE as int
        },
        None => PAGE_SIZE as int,
    }
}

/// The upper-bound instant of a window, if it has one.
pub open spec fn spec_end_instant(w: TimeWindow) -> Option<i64> {
    match w.end {
        TimeBound::Included(e) => Some(e),
        TimeBound::Excluded(e) => Some(e),
        TimeBound::Unbounded => None,
    }
}

/// Whether an end instant, taken to milliseconds, fits the 42-bit epoch
/// offset a synthetic cursor needs.
pub open spec fn spec_end_encodable(e: int) -> bool {
    e * 1000 >= DISCORD_EPOCH_MS && e * 1000 - DISCORD_EPOCH_MS < 0x400_0000_0000
}

/// The synthetic cursor for an end instant: the identifier a message created
/// at that instant with partition id 0 and sequence 0 would carry.
pub open spec fn spec_end_cursor(e: int) -> u64 {
    ((e * 1000 - DISCORD_EPOCH_MS) as u64) << 22
}

/// Decide the first page request for a window: a synthetic cursor converted
/// from the window's upper bound when it has one, the most-recent page
/// otherwise.  A boundary that cannot be encoded fails the source with
/// `WindowComputationFailure`.
pub fn initial_page_request(w: &TimeWindow, limit: Option<usize>) -> (r: Result<
    PageQuery,
    FetchError,
>)
    requires
        limit matches Some(l) ==> l >= 1,
    ensures
        match spec_end_instant(*w) {
            None => r matches Ok(q) && q == (PageQuery::Latest {
                limit: spec_first_limit(limit) as u8,
            }),
            Some(e) => if spec_end_encodable(e as int) {
                r matches Ok(q) && q == (PageQuery::Before {
                    cursor: spec_end_cursor(e as int),
                    limit: spec_first_limit(limit) as u8,
                })
            } else {
                r matches Err(err) && err is WindowComputationFailure
            },
        },
{
    let cap: u8 = match limit {
        Some(l) => if l < PAGE_SIZE {
            l as u8
        } else {
            100u8
        },
        None => 100u8,
    };
    let end: Option<i64> = match &w.end {
        TimeBound::Included(e) => Some(*e),
        TimeBound::Excluded(e) => Some(*e),
        TimeBound::Unbounded => None,
    };
    match end {
        None => Ok(PageQuery::Latest { limit: cap }),
        Some(e) => {
            if e < 0 || e > i64::MAX / 1000 {
                return Err(FetchError::WindowComputationFailure);
            }
            let ms = e * 1000;
            if ms < 1420070400000i64 {
                return Err(FetchError::WindowComputationFailure);
            }
            let off = (ms - 1420070400000i64) as u64;
            if off >> 42 != 0 {
                proof {
                    let o = off;
                    assert(o >> 42 != 0 ==> o >= 0x400_0000_0000) by (bit_vector);
                }
                return Err(FetchError::WindowComputationFailure);
            }
            proof {
                let o = off;
                assert(o >> 42 == 0 ==> o < 0x400_0000_0000) by (bit_vector);
            }
            Ok(PageQuery::Before { cursor: off << 22, limit: cap })
        },
    }
}

/// What the drain loop does next.
#[derive(Clone, Copy, Debug, PartialEq, Eq, Structural)]
pub enum DrainStep {
    /// All stop conditions considered, the walk is over.
    Stop,
    /// Fetch the next page strictly before `cursor`, at most `limit` items.
    Fetch { cursor: u64, limit: u8 },
}

/// How many items the next page may carry: the remaining budget, capped at a
/// full page.
pub open spec fn spec_remaining(limit: Option<usize>, have: int) -> int {
    match limit {
        None => PAGE_SIZE as int,
        Some(l) => if l - have < PAGE_SIZE {
            l - have
        } else {
            PAGE_SIZE as int
        },
    }
}

/// Decide whether the drain loop keeps going.  It continues exactly while the
/// item budget is not exhausted, at least one item was retrieved, and the last
/// item's timestamp is decodable and still inside the window; the next request
/// then asks for the page before that item's identifier.
pub fn drain_decision(acc: &Vec<Message>, limit: Option<usize>, w: &TimeWindow) -> (r: DrainStep)
    ensures
        ({
            let cont = (match limit {
                Some(l) => acc@.len() < l,
                None => true,
            }) && acc@.len() > 0 && spec_in_window(*w, acc@.last());
            if cont {
                r matches DrainStep::Fetch { cursor, limit: cap } && Some(cursor) == spec_msg_id(
                    acc@.last(),
                )
                    && cap == spec_remaining(limit, acc@.len() as int) && cap >= 1
            } else {
                r is Stop
            }
        }),
{
    let len = acc.len();
    if len == 0 {
        return DrainStep::Stop;
    }
    let cap: u8 = match limit {
        Some(l) => {
            if len >= l {
                return DrainStep::Stop;
            }
            let rem = l - len;
            if rem < PAGE_SIZE {
                rem as u8
            } else {
                100u8
            }
        },
        None => 100u8,
    };
    let last = &acc[len - 1];
    if !msg_in_window(last, w) {
        return DrainStep::Stop;
    }
    match parse_u64(last.id.as_str()) {
        Some(id) => DrainStep::Fetch { cursor: id, limit: cap },
        None => {
            proof {
                assert(parses_as_u64(acc@.last().id@));
            }
            vstd::pervasive::unreached()
        },
    }
}

/// Append a batch's in-window portion to the accumulator; reports whether
/// anything was kept (an empty filtered batch ends the walk).
pub fn absorb_batch(acc: &mut Vec<Message>, batch: Vec<Message>, w: &TimeWindow) -> (grew: bool)
    ensures
        final(acc)@ == old(acc)@ + spec_filtered(*w, batch@),
        grew == (spec_filtered(*w, batch@).len() > 0),
{
    let mut f = filter_to_window(batch, w);
    let grew = f.len() > 0;
    acc.append(&mut f);
    grew
}

} // verus!
