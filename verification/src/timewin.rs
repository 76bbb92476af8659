//! Time windows over unix-second instants, with inclusive, exclusive or
//! unbounded ends on both sides.

use vstd::prelude::*;

verus! {

/// One end of a time window.
#[derive(Clone, Copy, Debug, PartialEq, Eq, Structural)]
pub enum TimeBound {
    /// The boundary instant itself belongs to the window.
    Included(i64),
    /// Everything strictly past the boundary belongs to the window.
    Excluded(i64),
    /// No boundary on this side.
    Unbounded,
}

/// A range of unix-second instants.
#[derive(Clone, Copy, Debug, PartialEq, Eq, Structural)]
pub struct TimeWindow {
    pub start: TimeBound,
    pub end: TimeBound,
}

/// Whether instant `t` satisfies `b` taken as a lower bound.
pub open spec fn spec_above_start(b: TimeBound, t: int) -> bool {
    match b {
        TimeBound::Included(s) => t >= s,
        TimeBound::Excluded(s) => t > s,
        TimeBound::Unbounded => true,
    }
}

/// Whether instant `t` satisfies `b` taken as an upper bound.
pub open spec fn spec_below_end(b: TimeBound, t: int) -> bool {
    match b {
        TimeBound::Included(e) => t <= e,
        TimeBound::Excluded(e) => t < e,
        TimeBound::Unbounded => true,
    }
}

/// Whether instant `t` lies inside the window.
pub open spec fn spec_contains(w: TimeWindow, t: int) -> bool {
    spec_above_start(w.start, t) && spec_below_end(w.end, t)
}

impl TimeWindow {
    /// Whether instant `t` lies inside the window.
    pub fn contains(&self, t: i64) -> (r: bool)
        ensures
            r == spec_contains(*self, t as int),
    {
        let above = match self.start {
            TimeBound::Included(s) => t >= s,
            TimeBound::Excluded(s) => t > s,
            TimeBound::Unbounded => true,
        };
        let below = match self.end {
            TimeBound::Included(e) => t <= e,
            TimeBound::Excluded(e) => t < e,
            TimeBound::Unbounded => true,
        };
        above && below
    }
}

/// `a - b` on `i64`, saturating at the ends of the range.
pub open spec fn spec_sat_sub_i64(a: int, b: int) -> int {
    if a - b > i64::MAX {
        i64::MAX as int
    } else if a - b < i64::MIN {
        i64::MIN as int
    } else {
        a - b
    }
}

/// `a * 60` on `i64`, saturating at the ends of the range.
pub open spec fn spec_sat_times_60(a: int) -> int {
    if a * 60 > i64::MAX {
        i64::MAX as int
    } else if a * 60 < i64::MIN {
        i64::MIN as int
    } else {
        a * 60
    }
}

/// The window one scheduled run harvests: from the previous run's instant
/// (inclusive) up to the current instant (exclusive).  The previous instant is
/// the current one minus the schedule gap in minutes, saturating rather than
/// wrapping on extreme gaps.
pub fn harvest_window(now_s: i64, sched_diff_min: i64) -> (w: TimeWindow)
    ensures
        w.end == TimeBound::Excluded(now_s),
        w.start == TimeBound::Included(
            spec_sat_sub_i64(now_s as int, spec_sat_times_60(sched_diff_min as int)) as i64,
        ),
{
    let gap_s: i64 = if sched_diff_min > i64::MAX / 60 {
        i64::MAX
    } else if sched_diff_min < i64::MIN / 60 {
        i64::MIN
    } else {
        sched_diff_min * 60
    };
    let prev: i64 = if gap_s >= 0 {
        if now_s < i64::MIN + gap_s {
            i64::MIN
        } else {
            now_s - gap_s
        }
    } else {
        if now_s > i64::MAX + gap_s {
            i64::MAX
        } else {
            now_s - gap_s
        }
    };
    TimeWindow { start: TimeBound::Included(prev), end: TimeBound::Excluded(now_s) }
}

/// The dash characters of a date string removed.
pub open spec fn spec_strip_dashes(s: Seq<char>) -> Seq<char>
    decreases s.len(),
{
    if s.len() == 0 {
        Seq::empty()
    } else if s[0] == '-' {
        spec_strip_dashes(s.skip(1))
    } else {
        seq![s[0]] + spec_strip_dashes(s.skip(1))
    }
}

/// The month a `yyyyMM` date string names (dashes ignored): its year and
/// month numbers, the month between 1 and 12.
pub open spec fn spec_parse_month(s: Seq<char>) -> Option<(u32, u8)> {
    let t = spec_strip_dashes(s);
    if t.len() == 6 && crate::digits::all_digits(t) {
        let y = crate::digits::dec_val(t.subrange(0, 4));
        let m = crate::digits::dec_val(t.subrange(4, 6));
        if 1 <= m && m <= 12 {
            Some((y as u32, m as u8))
        } else {
            None
        }
    } else {
        None
    }
}

/// Read a `yyyyMM` month, dashes allowed anywhere: exactly six digits must
/// remain, and the month part must lie between 1 and 12.  Only digits
/// count: no sign characters, unlike a general integer parse.
pub fn parse_month(s: &str) -> (r: Option<(u32, u8)>)
    ensures
        r == spec_parse_month(s@),
{
    let len = s.unicode_len();
    let mut digits: Vec<u64> = Vec::new();
    let mut ok = true;
    let mut i: usize = 0;
    proof {
        assert(s@.take(0) =~= Seq::<char>::empty());
        assert(spec_strip_dashes(s@.take(0)) =~= Seq::<char>::empty());
    }
    while i < len
        invariant
            0 <= i <= len,
            len == s@.len(),
            digits@.len() == spec_strip_dashes(s@.take(i as int)).len(),
            ok == crate::digits::all_digits(spec_strip_dashes(s@.take(i as int))),
            ok ==> (forall|k: int|
                0 <= k < digits@.len() ==> #[trigger] digits@[k] == crate::digits::digit_val(
                    spec_strip_dashes(s@.take(i as int))[k],
                )),
        decreases len - i,
    {
        let ghost pre = spec_strip_dashes(s@.take(i as int));
        let c = s.get_char(i);
        proof {
            lemma_strip_dashes_take_step(s@, i as int);
        }
        if c != '-' {
            let code = c as u32;
            let ghost post = spec_strip_dashes(s@.take(i + 1));
            proof {
                assert(post =~= pre + seq![s@[i as int]]);
                assert(post[post.len() - 1] == s@[i as int]);
            }
            if code < 48 || code > 57 {
                assert(!crate::digits::is_digit_char(s@[i as int]));
                ok = false;
                digits.push(0);
                proof {
                    assert(!crate::digits::all_digits(post));
                }
            } else {
                let d = (code - 48) as u64;
                assert(d == crate::digits::digit_val(s@[i as int]));
                assert(crate::digits::is_digit_char(s@[i as int]));
                digits.push(d);
                proof {
                    if ok {
                        assert forall|k: int| 0 <= k < post.len() implies
                            crate::digits::is_digit_char(#[trigger] post[k]) by {
                            if k < post.len() - 1 {
                                assert(post[k] == pre[k]);
                            }
                        }
                        assert(crate::digits::all_digits(post));
                        assert forall|k: int| 0 <= k < digits@.len() implies #[trigger] digits@[k]
                            == crate::digits::digit_val(post[k]) by {
                            if k < digits@.len() - 1 {
                                assert(post[k] == pre[k]);
                                assert(digits@[k] == crate::digits::digit_val(pre[k]));
                            }
                        }
                    } else {
                        let bad = choose|k: int|
                            0 <= k < pre.len() && !crate::digits::is_digit_char(pre[k]);
                        assert(post[bad] == pre[bad]);
                        assert(!crate::digits::all_digits(post));
                    }
                }
            }
        }
        i = i + 1;
    }
    proof {
        assert(s@.take(len as int) =~= s@);
    }
    let ghost t = spec_strip_dashes(s@);
    if !ok {
        return None;
    }
    if digits.len() != 6 {
        return None;
    }
    proof {
        lemma_dec_val_four(t.subrange(0, 4));
        lemma_dec_val_two(t.subrange(4, 6));
    }
    let y = digits[0] * 1000 + digits[1] * 100 + digits[2] * 10 + digits[3];
    let m = digits[4] * 10 + digits[5];
    if m < 1 || m > 12 {
        return None;
    }
    Some((y as u32, m as u8))
}

proof fn lemma_strip_dashes_take_step(s: Seq<char>, i: int)
    requires
        0 <= i < s.len(),
    ensures
        spec_strip_dashes(s.take(i + 1)) == spec_strip_dashes(s.take(i)) + (if s[i] == '-' {
            Seq::<char>::empty()
        } else {
            seq![s[i]]
        }),
    decreases i,
{
    if i == 0 {
        assert(s.take(1)[0] == s[0]);
        assert(s.take(1).skip(1) =~= Seq::<char>::empty());
        assert(s.take(0) =~= Seq::<char>::empty());
        assert(spec_strip_dashes(Seq::<char>::empty()) =~= Seq::<char>::empty());
        if s[0] == '-' {
            assert(spec_strip_dashes(s.take(1)) =~= Seq::<char>::empty());
            assert(spec_strip_dashes(s.take(0)) + Seq::<char>::empty() =~= Seq::<char>::empty());
        } else {
            assert(spec_strip_dashes(s.take(1)) =~= seq![s[0]]);
            assert(spec_strip_dashes(s.take(0)) + seq![s[0]] =~= seq![s[0]]);
        }
    } else {
        lemma_strip_dashes_take_step(s.skip(1), i - 1);
        assert(s.take(i + 1)[0] == s[0]);
        assert(s.take(i + 1).skip(1) =~= s.skip(1).take(i));
        assert(s.take(i)[0] == s[0]);
        assert(s.take(i).skip(1) =~= s.skip(1).take(i - 1));
        assert(s.skip(1)[i - 1] == s[i]);
        if s[0] == '-' {
        } else {
            assert(seq![s[0]] + (spec_strip_dashes(s.skip(1).take(i - 1)) + (if s[i] == '-' {
                Seq::<char>::empty()
            } else {
                seq![s[i]]
            })) =~= (seq![s[0]] + spec_strip_dashes(s.skip(1).take(i - 1))) + (if s[i] == '-' {
                Seq::<char>::empty()
            } else {
                seq![s[i]]
            }));
        }
    }
}

proof fn lemma_dec_val_two(t: Seq<char>)
    requires
        t.len() == 2,
    ensures
        crate::digits::dec_val(t) == crate::digits::digit_val(t[0]) * 10
            + crate::digits::digit_val(t[1]),
{
    assert(crate::digits::dec_val(Seq::<char>::empty()) == 0);
    assert(t.drop_last() =~= t.subrange(0, 1));
    assert(t.subrange(0, 1).drop_last() =~= Seq::<char>::empty());
    assert(t.subrange(0, 1).last() == t[0]);
    assert(crate::digits::dec_val(t.subrange(0, 1)) == crate::digits::digit_val(t[0]));
}

proof fn lemma_dec_val_four(t: Seq<char>)
    requires
        t.len() == 4,
    ensures
        crate::digits::dec_val(t) == crate::digits::digit_val(t[0]) * 1000
            + crate::digits::digit_val(t[1]) * 100 + crate::digits::digit_val(t[2]) * 10
            + crate::digits::digit_val(t[3]),
{
    assert(crate::digits::dec_val(Seq::<char>::empty()) == 0);
    assert(t.drop_last() =~= t.subrange(0, 3));
    assert(t.subrange(0, 3).drop_last() =~= t.subrange(0, 2));
    assert(t.subrange(0, 2).drop_last() =~= t.subrange(0, 1));
    assert(t.subrange(0, 1).drop_last() =~= Seq::<char>::empty());
    assert(t.subrange(0, 1).last() == t[0]);
    assert(t.subrange(0, 2).last() == t[1]);
    assert(t.subrange(0, 3).last() == t[2]);
    assert(crate::digits::dec_val(t.subrange(0, 1)) == crate::digits::digit_val(t[0]));
    assert(crate::digits::dec_val(t.subrange(0, 2)) == crate::digits::digit_val(t[0]) * 10
        + crate::digits::digit_val(t[1]));
    assert(crate::digits::dec_val(t.subrange(0, 3)) == (crate::digits::digit_val(t[0]) * 10
        + crate::digits::digit_val(t[1])) * 10 + crate::digits::digit_val(t[2]));
}

/// Minutes between two successive scheduled instants given in unix
/// milliseconds, the later one first.
pub fn sched_gap_minutes(later_ms: i64, earlier_ms: i64) -> (r: i64)
    requires
        0 <= earlier_ms <= later_ms,
    ensures
        r == (later_ms - earlier_ms) / 60000,
{
    (later_ms - earlier_ms) / 60000
}

} // verus!
