//! Per-key token-bucket rate limiting: each key holds up to `capacity`
//! tokens (counted here in thousandths), refilled continuously at
//! `capacity` tokens per second; one check costs one token. A capacity of
//! zero disables the limiter.

use vstd::prelude::*;
use crate::kvlist;
use crate::kvlist::{kv_view, spec_find, unique_keys};

verus! {

/// One token bucket: a token count in thousandths and the instant of the
/// last refill.
#[derive(Clone, Copy, PartialEq, Eq, Structural, Debug)]
pub struct Bucket {
    pub tokens_milli: u64,
    pub last_refill_ms: u64,
}

/// A full bucket, in thousandths of a token.
pub open spec fn cap_milli(capacity: u32) -> int {
    capacity * 1000
}

/// A fresh bucket: full, refilled now.
pub open spec fn fresh_bucket(capacity: u32, now_ms: u64) -> Bucket {
    Bucket { tokens_milli: (capacity * 1000) as u64, last_refill_ms: now_ms }
}

/// A bucket refilled at `now_ms`: `elapsed * capacity` thousandths are
/// added, capped at a full bucket. A clock that moved backwards refills
/// nothing.
pub open spec fn spec_refill(b: Bucket, capacity: u32, now_ms: u64) -> Bucket {
    let elapsed = if now_ms >= b.last_refill_ms {
        now_ms - b.last_refill_ms
    } else {
        0
    };
    let t = if elapsed >= 1000 {
        cap_milli(capacity)
    } else if b.tokens_milli + elapsed * capacity >= cap_milli(capacity) {
        cap_milli(capacity)
    } else {
        b.tokens_milli + elapsed * capacity
    };
    Bucket { tokens_milli: t as u64, last_refill_ms: now_ms }
}

/// One check against a bucket: refill, then spend one token if a whole one
/// is available. Yields the new bucket and whether the request is allowed.
pub open spec fn spec_check_bucket(b: Bucket, capacity: u32, now_ms: u64) -> (Bucket, bool) {
    let rb = spec_refill(b, capacity, now_ms);
    if rb.tokens_milli >= 1000 {
        (
            Bucket {
                tokens_milli: (rb.tokens_milli - 1000) as u64,
                last_refill_ms: rb.last_refill_ms,
            },
            true,
        )
    } else {
        (rb, false)
    }
}

/// A bucket with no more tokens than a full one holds.
pub open spec fn bucket_bounded(b: Bucket, capacity: u32) -> bool {
    b.tokens_milli <= cap_milli(capacity)
}

/// The per-key token-bucket rate limiter.
pub struct RateLimiter {
    pub buckets: Vec<(String, Bucket)>,
    pub capacity: u32,
}

/// A bucket pair touched within the last five minutes.
pub open spec fn bucket_active(now_ms: u64) -> spec_fn((Seq<char>, Bucket)) -> bool {
    |p: (Seq<char>, Bucket)| now_ms < 300000 + p.1.last_refill_ms
}

impl RateLimiter {
    /// The model of the limiter: key view to bucket.
    pub open spec fn bview(&self) -> Seq<(Seq<char>, Bucket)> {
        kv_view(self.buckets@)
    }

    /// Well-formedness: unique keys and every bucket within capacity.
    pub open spec fn wf(&self) -> bool {
        &&& unique_keys(self.bview())
        &&& forall|i: int|
            0 <= i < self.bview().len() ==> bucket_bounded(
                (#[trigger] self.bview()[i]).1,
                self.capacity,
            )
    }

    /// Create a limiter. A capacity of zero disables rate limiting.
    pub fn new(capacity: u32) -> (r: Self)
        ensures
            r.wf(),
            r.capacity == capacity,
            r.bview().len() == 0,
    {
        let r = RateLimiter { buckets: Vec::new(), capacity };
        proof {
            assert(r.bview() =~= Seq::<(Seq<char>, Bucket)>::empty());
        }
        r
    }

    /// Check whether a request for `key` is allowed at time `now_ms`,
    /// consuming a token when it is. The bucket consulted is the stored one
    /// or, for a first-seen key, a fresh full bucket; no other key's bucket
    /// is touched.
    pub fn check_at(&mut self, key: &str, now_ms: u64) -> (r: bool)
        requires
            old(self).wf(),
        ensures
            final(self).wf(),
            final(self).capacity == old(self).capacity,
            old(self).capacity == 0 ==> r && final(self).bview() == old(self).bview(),
            old(self).capacity > 0 ==> {
                let b0 = match spec_find(old(self).bview(), key@) {
                    Some(b) => b,
                    None => fresh_bucket(old(self).capacity, now_ms),
                };
                let st = spec_check_bucket(b0, old(self).capacity, now_ms);
                &&& r == st.1
                &&& spec_find(final(self).bview(), key@) == Some(st.0)
                &&& forall|k: Seq<char>|
                    k != key@ ==> #[trigger] spec_find(final(self).bview(), k) == spec_find(
                        old(self).bview(),
                        k,
                    )
            },
    {
        if self.capacity == 0 {
            return true;
        }
        let cap_m: u64 = (self.capacity as u64) * 1000;
        let b0: Bucket = match kvlist::kv_get(&self.buckets, key) {
            Some(b) => *b,
            None => Bucket { tokens_milli: cap_m, last_refill_ms: now_ms },
        };
        proof {
            if spec_find(self.bview(), key@) matches Some(b) {
                let i = kvlist::spec_key_idx(self.bview(), key@);
                kvlist::lemma_key_idx(self.bview(), key@);
                assert(bucket_bounded(self.bview()[i].1, self.capacity));
            }
        }
        let elapsed: u64 = if now_ms >= b0.last_refill_ms {
            now_ms - b0.last_refill_ms
        } else {
            0
        };
        proof {
            assert(bucket_bounded(b0, self.capacity));
        }
        let cap64: u64 = self.capacity as u64;
        let refilled: u64 = if elapsed >= 1000 {
            cap_m
        } else {
            proof {
                assert(elapsed * cap64 <= 999 * 4294967295u64) by (nonlinear_arith)
                    requires
                        elapsed <= 999,
                        cap64 <= 4294967295u64,
                ;
            }
            let add: u64 = elapsed * cap64;
            if b0.tokens_milli + add >= cap_m {
                cap_m
            } else {
                b0.tokens_milli + add
            }
        };
        let (b1, allowed): (Bucket, bool) = if refilled >= 1000 {
            (Bucket { tokens_milli: refilled - 1000, last_refill_ms: now_ms }, true)
        } else {
            (Bucket { tokens_milli: refilled, last_refill_ms: now_ms }, false)
        };
        let ghost before = self.bview();
        kvlist::kv_set(&mut self.buckets, key, b1);
        proof {
            kvlist::lemma_insert_find(before, key@, b1, key@);
            assert forall|k: Seq<char>| k != key@ implies #[trigger] spec_find(self.bview(), k)
                == spec_find(before, k) by {
                kvlist::lemma_insert_find(before, key@, b1, k);
            }
            assert forall|i: int| 0 <= i < self.bview().len() implies bucket_bounded(
                (#[trigger] self.bview()[i]).1,
                self.capacity,
            ) by {
                let ins = kvlist::spec_insert(before, key@, b1);
                let x = kvlist::spec_key_idx(before, key@);
                kvlist::lemma_key_idx(before, key@);
                if x < 0 {
                    if i < ins.len() - 1 {
                        assert(ins[i] == before[i]);
                    } else {
                        assert(ins[i] == (key@, b1));
                    }
                } else {
                    if i < ins.len() - 1 {
                        let j = if i < x {
                            i
                        } else {
                            i + 1
                        };
                        assert(ins[i] == before.remove(x)[i]);
                        assert(before.remove(x)[i] == before[j]);
                    } else {
                        assert(ins[i] == (key@, b1));
                    }
                }
            }
        }
        allowed
    }

    /// Check whether a request for `key` is allowed now.
    pub fn check(&mut self, key: &str) -> (r: bool)
        requires
            old(self).wf(),
        ensures
            final(self).wf(),
            final(self).capacity == old(self).capacity,
            old(self).capacity == 0 ==> r,
            forall|k: Seq<char>|
                k != key@ ==> #[trigger] spec_find(final(self).bview(), k) == spec_find(
                    old(self).bview(),
                    k,
                ),
    {
        let now = crate::clock::now_millis();
        self.check_at(key, now)
    }

    /// Evict buckets idle for more than five minutes.
    pub fn cleanup_at(&mut self, now_ms: u64)
        requires
            old(self).wf(),
        ensures
            final(self).wf(),
            final(self).capacity == old(self).capacity,
            final(self).bview() == kvlist::spec_retain(old(self).bview(), bucket_active(now_ms)),
    {
        let mut out: Vec<(String, Bucket)> = Vec::new();
        let ghost orig = self.bview();
        loop
            invariant
                self.capacity == old(self).capacity,
                forall|i: int|
                    0 <= i < kv_view(out@).len() ==> bucket_bounded(
                        (#[trigger] kv_view(out@)[i]).1,
                        self.capacity,
                    ),
                kvlist::spec_retain(orig, bucket_active(now_ms)) == kv_view(out@)
                    + kvlist::spec_retain(self.bview(), bucket_active(now_ms)),
                forall|i: int|
                    0 <= i < self.bview().len() ==> bucket_bounded(
                        (#[trigger] self.bview()[i]).1,
                        self.capacity,
                    ),
            ensures
                self.capacity == old(self).capacity,
                self.buckets@.len() == 0,
                forall|i: int|
                    0 <= i < kv_view(out@).len() ==> bucket_bounded(
                        (#[trigger] kv_view(out@)[i]).1,
                        self.capacity,
                    ),
                kvlist::spec_retain(orig, bucket_active(now_ms)) == kv_view(out@)
                    + kvlist::spec_retain(self.bview(), bucket_active(now_ms)),
            decreases self.buckets@.len(),
        {
            if self.buckets.len() == 0 {
                break ;
            }
            let ghost prev = self.bview();
            let pair = self.buckets.remove(0);
            proof {
                assert(self.bview() =~= prev.drop_first());
                assert((pair.0@, pair.1) == prev[0]);
            }
            if pair.1.last_refill_ms >= now_ms || now_ms - pair.1.last_refill_ms < 300000 {
                let ghost out_before = out@;
                out.push(pair);
                proof {
                    assert(bucket_bounded(prev[0].1, self.capacity));
                    assert forall|i: int| 0 <= i < kv_view(out@).len() implies bucket_bounded(
                        (#[trigger] kv_view(out@)[i]).1,
                        self.capacity,
                    ) by {
                        if i < kv_view(out@).len() - 1 {
                            assert(kv_view(out@)[i] == kv_view(out_before)[i]);
                        } else {
                            assert(kv_view(out@)[i].1 == prev[0].1);
                        }
                    }
                }
            }
            proof {
                assert(kvlist::spec_retain(orig, bucket_active(now_ms)) =~= kv_view(out@)
                    + kvlist::spec_retain(self.bview(), bucket_active(now_ms)));
            }
        }
        proof {
            assert(kvlist::spec_retain(self.bview(), bucket_active(now_ms)) =~= Seq::<
                (Seq<char>, Bucket),
            >::empty());
            assert(kvlist::spec_retain(orig, bucket_active(now_ms)) =~= kv_view(out@));
            kvlist::lemma_retain_unique(orig, bucket_active(now_ms));
        }
        self.buckets = out;
    }

    /// Evict buckets idle for more than five minutes, against the current
    /// time: the surviving map is the retained part of the old one at some
    /// clock reading.
    pub fn cleanup(&mut self)
        requires
            old(self).wf(),
        ensures
            final(self).wf(),
            final(self).capacity == old(self).capacity,
            exists|now: u64|
                final(self).bview() == kvlist::spec_retain(
                    old(self).bview(),
                    bucket_active(now),
                ),
    {
        let now = crate::clock::now_millis();
        self.cleanup_at(now);
        proof {
            assert(self.bview() == kvlist::spec_retain(old(self).bview(), bucket_active(now)));
        }
    }
}

/// The bucket after `n` checks in immediate succession, starting full.
pub open spec fn bucket_after_checks(capacity: u32, now_ms: u64, n: nat) -> Bucket
    decreases n,
{
    if n == 0 {
        fresh_bucket(capacity, now_ms)
    } else {
        spec_check_bucket(bucket_after_checks(capacity, now_ms, (n - 1) as nat), capacity, now_ms).0
    }
}

/// Token depletion: starting from a fresh bucket, each of the first
/// `capacity` checks at one instant is allowed and costs a whole token;
/// after `capacity` checks the bucket is empty and the next check at the
/// same instant is denied.
pub proof fn lemma_rate_limit_depletion(capacity: u32, now_ms: u64, n: nat)
    requires
        capacity > 0,
        n <= capacity,
    ensures
        bucket_after_checks(capacity, now_ms, n).tokens_milli == (capacity - n) * 1000,
        bucket_after_checks(capacity, now_ms, n).last_refill_ms == now_ms,
        n < capacity ==> spec_check_bucket(
            bucket_after_checks(capacity, now_ms, n),
            capacity,
            now_ms,
        ).1,
        n == capacity ==> !spec_check_bucket(
            bucket_after_checks(capacity, now_ms, n),
            capacity,
            now_ms,
        ).1,
    decreases n,
{
    if n == 0 {
        assert((capacity - 0) * 1000 == cap_milli(capacity));
    } else {
        lemma_rate_limit_depletion(capacity, now_ms, (n - 1) as nat);
        let b = bucket_after_checks(capacity, now_ms, (n - 1) as nat);
        let m = (n - 1) as nat;
        assert(b.tokens_milli == (capacity - m) * 1000);
        assert(0 <= capacity - m <= capacity);
        assert((capacity - m) * 1000 <= capacity * 1000) by (nonlinear_arith)
            requires
                0 <= capacity - m <= capacity,
        ;
        assert(0 * capacity == 0) by (nonlinear_arith);
        assert(spec_refill(b, capacity, now_ms).tokens_milli == b.tokens_milli);
        assert(spec_refill(b, capacity, now_ms) == b);
        assert((capacity - m) * 1000 == (capacity - n) * 1000 + 1000) by (nonlinear_arith)
            requires
                m == n - 1,
                n >= 1,
        ;
        assert(n < capacity ==> (capacity - n) * 1000 >= 1000) by (nonlinear_arith);
    }
}

/// Refill: once enough time has passed that `elapsed * capacity` reaches a
/// whole token, a check on an empty bucket is allowed again.
pub proof fn lemma_rate_limit_refill(capacity: u32, b: Bucket, now_ms: u64)
    requires
        capacity > 0,
        now_ms >= b.last_refill_ms,
        (now_ms - b.last_refill_ms) * capacity >= 1000,
    ensures
        spec_check_bucket(b, capacity, now_ms).1,
{
    let elapsed = now_ms - b.last_refill_ms;
    if elapsed >= 1000 {
        assert(cap_milli(capacity) >= 1000) by (nonlinear_arith)
            requires
                capacity >= 1,
        ;
    } else {
        assert(b.tokens_milli + elapsed * capacity >= 1000);
        if b.tokens_milli + elapsed * capacity >= cap_milli(capacity) {
            assert(cap_milli(capacity) >= 1000) by (nonlinear_arith)
                requires
                    capacity >= 1,
            ;
        }
    }
}

/// Independence: a check on one key leaves every other key's bucket
/// exactly as it was. This is the content of `check_at`'s contract, stated
/// once for two distinct keys.
pub proof fn lemma_rate_limit_independence(
    before: RateLimiter,
    after: RateLimiter,
    key: Seq<char>,
    other: Seq<char>,
)
    requires
        other != key,
        before.capacity > 0,
        forall|k: Seq<char>|
            k != key ==> #[trigger] spec_find(after.bview(), k) == spec_find(before.bview(), k),
    ensures
        spec_find(after.bview(), other) == spec_find(before.bview(), other),
{
}

/// Independence over any call sequence: through a chain of limiter states,
/// each step a check on a key other than `other` — so each step preserves
/// every other key's bucket, as `check_at`'s contract ensures — the bucket
/// of `other` at the end is exactly its bucket at the start. A later check
/// on `other` therefore returns the same result as if the chain had never
/// happened.
pub proof fn lemma_rate_limit_independence_sequence(
    states: Seq<RateLimiter>,
    keys: Seq<Seq<char>>,
    other: Seq<char>,
)
    requires
        states.len() == keys.len() + 1,
        forall|i: int| 0 <= i < keys.len() ==> #[trigger] keys[i] != other,
        forall|i: int|
            0 <= i < keys.len() ==> (forall|k: Seq<char>|
                k != keys[i] ==> #[trigger] spec_find((#[trigger] states[i + 1]).bview(), k)
                    == spec_find(states[i].bview(), k)),
    ensures
        spec_find(states.last().bview(), other) == spec_find(states.first().bview(), other),
    decreases keys.len(),
{
    if keys.len() > 0 {
        let n = keys.len() as int;
        let prefix_states = states.take(n);
        let prefix_keys = keys.take(n - 1);
        assert(prefix_states.len() == prefix_keys.len() + 1);
        assert forall|i: int| 0 <= i < prefix_keys.len() implies #[trigger] prefix_keys[i]
            != other by {
            assert(prefix_keys[i] == keys[i]);
        }
        assert forall|i: int| 0 <= i < prefix_keys.len() implies (forall|k: Seq<char>|
            k != prefix_keys[i] ==> #[trigger] spec_find(
                (#[trigger] prefix_states[i + 1]).bview(),
                k,
            ) == spec_find(prefix_states[i].bview(), k)) by {
            assert(prefix_states[i] == states[i] && prefix_states[i + 1] == states[i + 1]);
            assert(prefix_keys[i] == keys[i]);
        }
        lemma_rate_limit_independence_sequence(prefix_states, prefix_keys, other);
        assert(prefix_states.first() == states.first());
        assert(prefix_states.last() == states[n - 1]);
        assert(keys[n - 1] != other);
        assert(spec_find(states[n as int].bview(), other) == spec_find(
            states[n - 1].bview(),
            other,
        ));
        assert(states.last() == states[n as int]);
    }
}

} // verus!
