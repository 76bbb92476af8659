//! Small verified text helpers: substring and affix tests, consecutive
//! dedup, reversal, and the zero-padded month formatting behind the monthly
//! bucket key.

use vstd::prelude::*;
use crate::digits::dec_str;
use crate::digits::u64_to_string;

verus! {

/// Exact string equality.
pub fn eq_str(a: &str, b: &str) -> (r: bool)
    ensures
        r == (a@ == b@),
{
    let sa = String::from_str(a);
    let sb = String::from_str(b);
    sa.eq(&sb)
}

/// `needle` occurs in `hay` starting at position `k`.
pub open spec fn spec_occurs_at(hay: Seq<char>, needle: Seq<char>, k: int) -> bool {
    0 <= k && k + needle.len() <= hay.len() && hay.subrange(k, k + needle.len()) == needle
}

/// `needle` occurs somewhere in `hay`.
pub open spec fn spec_contains_substr(hay: Seq<char>, needle: Seq<char>) -> bool {
    exists|k: int| spec_occurs_at(hay, needle, k)
}

fn matches_at(hay: &str, needle: &str, k: usize) -> (r: bool)
    requires
        k + needle@.len() <= hay@.len(),
    ensures
        r == spec_occurs_at(hay@, needle@, k as int),
{
    let hlen = hay.unicode_len();
    let nlen = needle.unicode_len();
    let mut j: usize = 0;
    while j < nlen
        invariant
            0 <= j <= nlen,
            nlen == needle@.len(),
            hlen == hay@.len(),
            k + nlen <= hlen,
            forall|t: int| 0 <= t < j ==> hay@[k + t] == needle@[t],
        decreases nlen - j,
    {
        if hay.get_char(k + j) != needle.get_char(j) {
            proof {
                assert(hay@.subrange(k as int, k + needle@.len())[j as int] != needle@[j as int]);
            }
            return false;
        }
        j = j + 1;
    }
    proof {
        assert(hay@.subrange(k as int, k + needle@.len()) =~= needle@);
    }
    true
}

/// Whether `needle` occurs anywhere in `hay`.
pub fn contains_substr(hay: &str, needle: &str) -> (r: bool)
    ensures
        r == spec_contains_substr(hay@, needle@),
{
    let hlen = hay.unicode_len();
    let nlen = needle.unicode_len();
    if nlen > hlen {
        proof {
            assert(forall|k: int| !spec_occurs_at(hay@, needle@, k));
        }
        return false;
    }
    if nlen == 0 {
        proof {
            assert(hay@.subrange(0, 0) =~= needle@);
            assert(spec_occurs_at(hay@, needle@, 0));
        }
        return true;
    }
    let last = hlen - nlen;
    let mut k: usize = 0;
    loop
        invariant
            0 <= k <= last + 1,
            hlen == hay@.len(),
            nlen == needle@.len(),
            1 <= nlen,
            last == hlen - nlen,
            forall|t: int| 0 <= t < k ==> !spec_occurs_at(hay@, needle@, t),
        decreases last + 1 - k,
    {
        if k > last {
            proof {
                assert(forall|t: int| t > last ==> !spec_occurs_at(hay@, needle@, t));
            }
            return false;
        }
        if matches_at(hay, needle, k) {
            return true;
        }
        k = k + 1;
    }
}

/// Whether an `Accept` header value asks for an HTML page.
pub fn wants_html(accept: Option<String>) -> (r: bool)
    ensures
        r == (match accept {
            Some(a) => spec_contains_substr(a@, "text/html"@),
            None => false,
        }),
{
    match accept {
        Some(a) => contains_substr(a.as_str(), "text/html"),
        None => false,
    }
}

/// Whether `s` starts with `prefix`.
pub fn starts_with_str(s: &str, prefix: &str) -> (r: bool)
    ensures
        r == (prefix@.len() <= s@.len() && s@.subrange(0, prefix@.len() as int) == prefix@),
{
    let plen = prefix.unicode_len();
    if plen > s.unicode_len() {
        return false;
    }
    matches_at(s, prefix, 0)
}

/// Whether `s` ends with `suffix`.
pub fn ends_with_str(s: &str, suffix: &str) -> (r: bool)
    ensures
        r == (suffix@.len() <= s@.len() && s@.subrange(
            s@.len() - suffix@.len(),
            s@.len() as int,
        ) == suffix@),
{
    let xlen = suffix.unicode_len();
    let slen = s.unicode_len();
    if xlen > slen {
        return false;
    }
    matches_at(s, suffix, slen - xlen)
}

/// What dedup keeps of `s` when the last kept element read `prev`: the next
/// element is dropped while it still reads `prev`, kept otherwise.
pub open spec fn spec_dedup_after(prev: Seq<char>, s: Seq<String>) -> Seq<String>
    decreases s.len(),
{
    if s.len() == 0 {
        Seq::empty()
    } else if s[0]@ == prev {
        spec_dedup_after(prev, s.skip(1))
    } else {
        seq![s[0]] + spec_dedup_after(s[0]@, s.skip(1))
    }
}

/// The sequence with runs of textually equal neighbours collapsed to their
/// first element.
pub open spec fn spec_dedup(s: Seq<String>) -> Seq<String> {
    if s.len() == 0 {
        Seq::empty()
    } else {
        seq![s[0]] + spec_dedup_after(s[0]@, s.skip(1))
    }
}

/// Collapse runs of textually equal neighbours to one element each.
pub fn dedup_consecutive(items: Vec<String>) -> (r: Vec<String>)
    ensures
        r@ == spec_dedup(items@),
{
    let len = items.len();
    let mut r: Vec<String> = Vec::new();
    if len == 0 {
        proof {
            assert(r@ =~= spec_dedup(items@));
        }
        return r;
    }
    r.push(items[0].clone());
    let mut i: usize = 1;
    proof {
        assert(r@ =~= seq![items@[0]]);
        assert(spec_dedup(items@) == r@ + spec_dedup_after(r@.last()@, items@.skip(1)));
    }
    while i < len
        invariant
            1 <= i <= len,
            len == items@.len(),
            r@.len() >= 1,
            spec_dedup(items@) == r@ + spec_dedup_after(r@.last()@, items@.skip(i as int)),
        decreases len - i,
    {
        let ghost rest = items@.skip(i as int);
        proof {
            assert(rest[0] == items@[i as int]);
            assert(rest.skip(1) =~= items@.skip(i + 1));
        }
        let rlast = r.len() - 1;
        if items[i].eq(&r[rlast]) {
            proof {
                assert(spec_dedup_after(r@.last()@, rest) == spec_dedup_after(
                    r@.last()@,
                    items@.skip(i + 1),
                ));
            }
        } else {
            let ghost rpre = r@;
            proof {
                assert(spec_dedup_after(rpre.last()@, rest) == seq![rest[0]]
                    + spec_dedup_after(rest[0]@, items@.skip(i + 1)));
            }
            r.push(items[i].clone());
            proof {
                assert(r@ =~= rpre + seq![items@[i as int]]);
                assert(r@.last() == items@[i as int]);
                assert(rpre + (seq![rest[0]] + spec_dedup_after(rest[0]@, items@.skip(i + 1)))
                    =~= r@ + spec_dedup_after(r@.last()@, items@.skip(i + 1)));
            }
        }
        i = i + 1;
    }
    proof {
        assert(items@.skip(len as int).len() == 0);
        assert(r@ + spec_dedup_after(r@.last()@, items@.skip(len as int)) =~= r@);
    }
    r
}

/// Reverse a list of strings.
pub fn reverse_strings(items: Vec<String>) -> (r: Vec<String>)
    ensures
        r@ == items@.reverse(),
{
    let len = items.len();
    let mut r: Vec<String> = Vec::new();
    let mut i: usize = 0;
    while i < len
        invariant
            0 <= i <= len,
            len == items@.len(),
            r@.len() == i,
            forall|j: int| 0 <= j < i ==> r@[j] == items@[len - 1 - j],
        decreases len - i,
    {
        r.push(items[len - 1 - i].clone());
        i = i + 1;
    }
    proof {
        assert(r@ =~= items@.reverse());
    }
    r
}

/// `n` in decimal, left-padded with zeros to at least `width` characters.
pub open spec fn spec_zero_padded(n: nat, width: int) -> Seq<char> {
    let d = dec_str(n);
    if d.len() >= width {
        d
    } else {
        Seq::new((width - d.len()) as nat, |i: int| '0') + d
    }
}

/// Render `n` zero-padded to `width` digits.
pub fn zero_padded(n: u64, width: usize) -> (r: String)
    requires
        width <= 10,
    ensures
        r@ == spec_zero_padded(n as nat, width as int),
{
    let digits = u64_to_string(n);
    let dlen = digits.as_str().unicode_len();
    if dlen >= width {
        return digits;
    }
    let mut r = String::new();
    let mut i: usize = 0;
    while i < width - dlen
        invariant
            0 <= i <= width - dlen,
            dlen == dec_str(n as nat).len(),
            dlen < width <= 10,
            r@ =~= Seq::new(i as nat, |j: int| '0'),
        decreases width - dlen - i,
    {
        r.append("0");
        proof {
            reveal_strlit("0");
            assert(r@ =~= Seq::new((i + 1) as nat, |j: int| '0'));
        }
        i = i + 1;
    }
    r.append(digits.as_str());
    proof {
        assert(r@ =~= Seq::new((width - dlen) as nat, |j: int| '0') + dec_str(n as nat));
    }
    r
}

/// The monthly bucket key for harvested links: the zero-padded year and
/// month joined by a dash, then the merged-bucket suffix.
pub fn monthly_bucket_key(year: u64, month: u64) -> (r: String)
    requires
        year <= 9999,
        1 <= month <= 12,
    ensures
        r@ == spec_zero_padded(year as nat, 4) + "-"@ + spec_zero_padded(month as nat, 2)
            + "_discord_merged"@,
{
    let mut r = zero_padded(year, 4);
    r.append("-");
    let m = zero_padded(month, 2);
    r.append(m.as_str());
    r.append("_discord_merged");
    r
}

} // verus!
