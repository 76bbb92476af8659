//! The read-through key-value cache's bookkeeping: an in-memory model of the
//! string-keyed store with TTLs, the read-through decision, and the
//! append-merge used for the monthly bucket.
//!
//! The store itself is process-external; expiry and concurrent writers are
//! its business.  What is modelled here is everything the engine decides:
//! what a key maps to after a write, when the network is consulted, and how
//! a new batch is merged onto an old bucket value.

use vstd::prelude::*;

verus! {

/// The TTL for cached metadata responses: one week.
pub const METADATA_TTL_S: u64 = 604800;

/// The TTL for cached listing pages: thirty minutes.
pub const PAGE_TTL_S: u64 = 1800;

/// The value stored under a key: the first entry whose key matches.
pub open spec fn spec_kv_lookup(es: Seq<(String, String, u64)>, k: Seq<char>) -> Option<Seq<char>>
    decreases es.len(),
{
    if es.len() == 0 {
        None
    } else if es[0].0@ == k {
        Some(es[0].1@)
    } else {
        spec_kv_lookup(es.skip(1), k)
    }
}

/// An in-memory model of the string-keyed store: key, value and TTL per
/// entry, last writer wins.
pub struct MemKv {
    pub entries: Vec<(String, String, u64)>,
}

impl MemKv {
    /// What this store holds under `k`.
    pub open spec fn spec_get(self, k: Seq<char>) -> Option<Seq<char>> {
        spec_kv_lookup(self.entries@, k)
    }

    /// An empty store.
    pub fn new() -> (r: MemKv)
        ensures
            forall|k: Seq<char>| r.spec_get(k) is None,
    {
        MemKv { entries: Vec::new() }
    }

    /// Read a key.  The store is untouched: the result is a function of the
    /// store and the key alone.
    pub fn get(&self, key: &str) -> (r: Option<String>)
        ensures
            match r {
                Some(v) => self.spec_get(key@) == Some(v@),
                None => self.spec_get(key@) is None,
            },
    {
        let key_s = String::from_str(key);
        let len = self.entries.len();
        let mut i: usize = 0;
        proof {
            assert(self.entries@.skip(0) =~= self.entries@);
        }
        while i < len
            invariant
                0 <= i <= len,
                len == self.entries@.len(),
                key_s@ == key@,
                spec_kv_lookup(self.entries@, key@) == spec_kv_lookup(
                    self.entries@.skip(i as int),
                    key@,
                ),
            decreases len - i,
        {
            proof {
                assert(self.entries@.skip(i as int)[0] == self.entries@[i as int]);
                assert(self.entries@.skip(i as int).skip(1) =~= self.entries@.skip(i + 1));
            }
            let hit = self.entries[i].0.eq(&key_s);
            proof {
                assert(key_s@ == key@);
                assert(hit == (self.entries@[i as int].0@ == key_s@));
            }
            if hit {
                proof {
                    assert(self.entries@[i as int].0@ == key@);
                    assert(spec_kv_lookup(self.entries@.skip(i as int), key@) == Some(
                        self.entries@[i as int].1@,
                    ));
                }
                return Some(self.entries[i].1.clone());
            }
            proof {
                assert(self.entries@[i as int].0@ != key@);
                assert(spec_kv_lookup(self.entries@.skip(i as int), key@) == spec_kv_lookup(
                    self.entries@.skip(i + 1),
                    key@,
                ));
            }
            i = i + 1;
        }
        None
    }

    /// Write a key with a TTL; the new value is what every later read of
    /// this key returns, and no other key changes.  Last writer wins.
    pub fn set(&mut self, key: &str, value: &str, ttl_s: u64)
        ensures
            final(self).spec_get(key@) == Some(value@),
            forall|k: Seq<char>|
                k != key@ ==> final(self).spec_get(k) == old(self).spec_get(k),
    {
        let mut es: Vec<(String, String, u64)> = Vec::new();
        es.push((key.to_owned(), value.to_owned(), ttl_s));
        es.append(&mut self.entries);
        self.entries = es;
        proof {
            let es2 = self.entries@;
            assert(es2[0].0@ == key@);
            assert forall|k: Seq<char>| k != key@ implies spec_kv_lookup(es2, k)
                == spec_kv_lookup(es2.skip(1), k) by {}
            assert(es2.skip(1) =~= old(self).entries@);
        }
    }
}

/// Law: a read leaves the store untouched and depends on the store and key
/// alone, so two reads of one key without an intervening write return the
/// same value.
pub proof fn lemma_get_idempotent(
    kv: MemKv,
    k: Seq<char>,
    r1: Option<Seq<char>>,
    r2: Option<Seq<char>>,
)
    requires
        r1 == kv.spec_get(k),
        r2 == kv.spec_get(k),
    ensures
        r1 == r2,
{
}

/// What the read-through cache does for one lookup result.
#[derive(Clone, Debug)]
pub enum ReadThrough {
    /// The cache answered; the network is skipped entirely.
    UseCached(String),
    /// The cache missed; fetch, then store the response under the key.
    FetchAndStore,
}

/// The read-through decision: a hit short-circuits the fetch, a miss asks
/// for a fetch whose successful result is then stored.
pub fn read_through_decision(cached: Option<String>) -> (r: ReadThrough)
    ensures
        match cached {
            Some(v) => r matches ReadThrough::UseCached(u) && u@ == v@,
            None => r is FetchAndStore,
        },
{
    match cached {
        Some(v) => ReadThrough::UseCached(v),
        None => ReadThrough::FetchAndStore,
    }
}

/// Append a value to whatever the key held, with no separator; an absent
/// previous value counts as empty.
pub fn merge_append(prev: Option<String>, value: &str) -> (r: String)
    ensures
        r@ == (match prev {
            Some(p) => p@,
            None => Seq::<char>::empty(),
        }) + value@,
{
    let mut base = match prev {
        Some(p) => p,
        None => String::new(),
    };
    base.append(value);
    base
}

/// Merge a new batch onto a monthly bucket: the previous value (empty when
/// absent), a newline, then the batch.  The write is last-writer-wins and
/// not atomic; one run at a time is assumed.
pub fn merge_bucket(prev: Option<String>, value: &str) -> (r: String)
    ensures
        r@ == (match prev {
            Some(p) => p@,
            None => Seq::<char>::empty(),
        }) + "\n"@ + value@,
{
    let mut base = match prev {
        Some(p) => p,
        None => String::new(),
    };
    base.append("\n");
    base.append(value);
    base
}

/// The lines joined with a newline between neighbours.
pub open spec fn spec_join_lines(items: Seq<String>) -> Seq<char>
    decreases items.len(),
{
    if items.len() == 0 {
        Seq::empty()
    } else if items.len() == 1 {
        items[0]@
    } else {
        items[0]@ + "\n"@ + spec_join_lines(items.skip(1))
    }
}

/// Join items with a newline between neighbours.
pub fn join_lines(items: &Vec<String>) -> (r: String)
    ensures
        r@ == spec_join_lines(items@),
{
    let len = items.len();
    if len == 0 {
        return String::new();
    }
    let mut r = items[0].clone();
    let mut i: usize = 1;
    proof {
        if len > 1 {
            assert(spec_join_lines(items@) == items@[0]@ + "\n"@ + spec_join_lines(
                items@.skip(1),
            ));
        }
    }
    while i < len
        invariant
            1 <= i <= len,
            len == items@.len(),
            (i < len ==> spec_join_lines(items@) == r@ + "\n"@ + spec_join_lines(
                items@.skip(i as int),
            )),
            (i == len ==> spec_join_lines(items@) == r@),
        decreases len - i,
    {
        let ghost r0 = r@;
        let ghost rest = items@.skip(i as int);
        proof {
            assert(rest[0] == items@[i as int]);
            assert(rest.skip(1) =~= items@.skip(i + 1));
        }
        r.append("\n");
        r.append(items[i].as_str());
        proof {
            assert(r@ =~= r0 + "\n"@ + items@[i as int]@);
            if i + 1 < len {
                assert(spec_join_lines(rest) == rest[0]@ + "\n"@ + spec_join_lines(
                    rest.skip(1),
                ));
                assert(r0 + "\n"@ + spec_join_lines(rest) =~= r@ + "\n"@ + spec_join_lines(
                    items@.skip(i + 1),
                ));
            } else {
                assert(rest.len() == 1);
                assert(spec_join_lines(rest) == rest[0]@);
                assert(r0 + "\n"@ + spec_join_lines(rest) =~= r@);
            }
        }
        i = i + 1;
    }
    r
}

} // verus!
