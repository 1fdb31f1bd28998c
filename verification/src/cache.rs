//! A TTL-bounded query result cache keyed by a canonical query fingerprint
//! string. A TTL of zero disables caching: inserts are dropped and every
//! lookup misses.

use vstd::prelude::*;
use crate::clock;
use crate::kvlist;
use crate::kvlist::{kv_view, spec_find, unique_keys};

verus! {

/// One cached result and when it was inserted.
pub struct CacheEntry {
    pub value: String,
    pub inserted_at_ms: u64,
}

/// The query result cache.
pub struct QueryCache {
    pub entries: Vec<(String, CacheEntry)>,
    pub ttl_secs: u64,
}

/// A cache pair still within its TTL at `now_ms`.
pub open spec fn cache_fresh(now_ms: u64, ttl_secs: u64) -> spec_fn((Seq<char>, CacheEntry)) -> bool {
    |p: (Seq<char>, CacheEntry)| now_ms <= clock::spec_expiry(p.1.inserted_at_ms, ttl_secs)
}

impl QueryCache {
    /// The model of the cache: key view to entry.
    pub open spec fn cview(&self) -> Seq<(Seq<char>, CacheEntry)> {
        kv_view(self.entries@)
    }

    /// Well-formedness: unique keys.
    pub open spec fn wf(&self) -> bool {
        unique_keys(self.cview())
    }

    /// Create a cache. A TTL of zero disables caching.
    pub fn new(ttl_secs: u64) -> (r: Self)
        ensures
            r.wf(),
            r.ttl_secs == ttl_secs,
            r.cview().len() == 0,
    {
        let r = QueryCache { entries: Vec::new(), ttl_secs };
        proof {
            assert(r.cview() =~= Seq::<(Seq<char>, CacheEntry)>::empty());
        }
        r
    }

    /// Look up a cached value at `now_ms`: a hit only for a stored entry
    /// younger than the TTL; a disabled cache always misses.
    pub fn get_at(&self, key: &str, now_ms: u64) -> (r: Option<String>)
        ensures
            self.ttl_secs == 0 ==> r is None,
            self.ttl_secs > 0 ==> r == (match spec_find(self.cview(), key@) {
                Some(e) => if now_ms <= clock::spec_expiry(e.inserted_at_ms, self.ttl_secs) {
                    Some(e.value)
                } else {
                    None::<String>
                },
                None => None::<String>,
            }),
    {
        if self.ttl_secs == 0 {
            return None;
        }
        match kvlist::kv_get(&self.entries, key) {
            Some(e) => {
                let deadline = clock::expiry(e.inserted_at_ms, self.ttl_secs);
                if now_ms <= deadline {
                    Some(e.value.clone())
                } else {
                    None
                }
            },
            None => None,
        }
    }

    /// Look up a cached value now.
    pub fn get(&self, key: &str) -> (r: Option<String>)
        ensures
            self.ttl_secs == 0 ==> r is None,
            r matches Some(v) ==> spec_find(self.cview(), key@) matches Some(e) && e.value == v,
    {
        let now = clock::now_millis();
        self.get_at(key, now)
    }

    /// Insert a value at `now_ms`. A disabled cache drops the insert.
    pub fn insert_at(&mut self, key: &str, value: String, now_ms: u64)
        requires
            old(self).wf(),
        ensures
            final(self).wf(),
            final(self).ttl_secs == old(self).ttl_secs,
            old(self).ttl_secs == 0 ==> final(self).cview() == old(self).cview(),
            old(self).ttl_secs > 0 ==> {
                &&& spec_find(final(self).cview(), key@) matches Some(e) && e.value@ == value@
                    && e.inserted_at_ms == now_ms
                &&& forall|k: Seq<char>|
                    k != key@ ==> #[trigger] spec_find(final(self).cview(), k) == spec_find(
                        old(self).cview(),
                        k,
                    )
            },
    {
        if self.ttl_secs == 0 {
            return ;
        }
        let entry = CacheEntry { value, inserted_at_ms: now_ms };
        let ghost ge = entry;
        let ghost before = self.cview();
        kvlist::kv_set(&mut self.entries, key, entry);
        proof {
            kvlist::lemma_insert_find(before, key@, ge, key@);
            assert forall|k: Seq<char>| k != key@ implies #[trigger] spec_find(self.cview(), k)
                == spec_find(before, k) by {
                kvlist::lemma_insert_find(before, key@, ge, k);
            }
        }
    }

    /// Insert a value now.
    pub fn insert(&mut self, key: &str, value: String)
        requires
            old(self).wf(),
        ensures
            final(self).wf(),
            final(self).ttl_secs == old(self).ttl_secs,
            old(self).ttl_secs == 0 ==> final(self).cview() == old(self).cview(),
            old(self).ttl_secs > 0 ==> {
                &&& spec_find(final(self).cview(), key@) matches Some(e) && e.value@ == value@
                &&& forall|k: Seq<char>|
                    k != key@ ==> #[trigger] spec_find(final(self).cview(), k) == spec_find(
                        old(self).cview(),
                        k,
                    )
            },
    {
        let now = clock::now_millis();
        self.insert_at(key, value, now);
    }

    /// Drop entries older than the TTL, judged at `now_ms`.
    pub fn cleanup_expired_at(&mut self, now_ms: u64)
        requires
            old(self).wf(),
        ensures
            final(self).wf(),
            final(self).ttl_secs == old(self).ttl_secs,
            final(self).cview() == kvlist::spec_retain(
                old(self).cview(),
                cache_fresh(now_ms, old(self).ttl_secs),
            ),
    {
        let ttl = self.ttl_secs;
        let mut out: Vec<(String, CacheEntry)> = Vec::new();
        let ghost orig = self.cview();
        loop
            invariant
                self.ttl_secs == old(self).ttl_secs,
                ttl == old(self).ttl_secs,
                kvlist::spec_retain(orig, cache_fresh(now_ms, ttl)) == kv_view(out@)
                    + kvlist::spec_retain(self.cview(), cache_fresh(now_ms, ttl)),
            ensures
                self.ttl_secs == old(self).ttl_secs,
                self.entries@.len() == 0,
                kvlist::spec_retain(orig, cache_fresh(now_ms, ttl)) == kv_view(out@)
                    + kvlist::spec_retain(self.cview(), cache_fresh(now_ms, ttl)),
            decreases self.entries@.len(),
        {
            if self.entries.len() == 0 {
                break ;
            }
            let ghost prev = self.cview();
            let pair = self.entries.remove(0);
            proof {
                assert(self.cview() =~= prev.drop_first());
                assert((pair.0@, pair.1) == prev[0]);
            }
            let deadline = clock::expiry(pair.1.inserted_at_ms, ttl);
            if now_ms <= deadline {
                out.push(pair);
            }
            proof {
                assert(kvlist::spec_retain(orig, cache_fresh(now_ms, ttl)) =~= kv_view(out@)
                    + kvlist::spec_retain(self.cview(), cache_fresh(now_ms, ttl)));
            }
        }
        proof {
            assert(kvlist::spec_retain(self.cview(), cache_fresh(now_ms, ttl)) =~= Seq::<
                (Seq<char>, CacheEntry),
            >::empty());
            assert(kvlist::spec_retain(orig, cache_fresh(now_ms, ttl)) =~= kv_view(out@));
            kvlist::lemma_retain_unique(orig, cache_fresh(now_ms, ttl));
        }
        self.entries = out;
    }

    /// Drop entries older than the TTL, judged now: the surviving map is the
    /// retained part of the old one at some clock reading.
    pub fn cleanup_expired(&mut self)
        requires
            old(self).wf(),
        ensures
            final(self).wf(),
            final(self).ttl_secs == old(self).ttl_secs,
            exists|now: u64|
                final(self).cview() == kvlist::spec_retain(
                    old(self).cview(),
                    cache_fresh(now, old(self).ttl_secs),
                ),
    {
        let now = clock::now_millis();
        self.cleanup_expired_at(now);
        proof {
            assert(self.cview() == kvlist::spec_retain(
                old(self).cview(),
                cache_fresh(now, old(self).ttl_secs),
            ));
        }
    }

    /// The number of cached entries.
    pub fn len(&self) -> (r: usize)
        ensures
            r == self.cview().len(),
    {
        self.entries.len()
    }

    /// Whether the cache holds no entries.
    pub fn is_empty(&self) -> (r: bool)
        ensures
            r == (self.cview().len() == 0),
    {
        self.entries.is_empty()
    }
}

} // verus!
