//! Per-IP login brute-force protection: failed attempts are counted, and
//! on reaching `max_attempts` the IP is locked out for `lockout_secs`
//! seconds. A `max_attempts` of zero disables the feature.

use vstd::prelude::*;
use crate::clock;
use crate::kvlist;
use crate::kvlist::{kv_view, spec_find, unique_keys};

verus! {

/// The failure record of one IP.
#[derive(Clone, Copy, PartialEq, Eq, Structural, Debug)]
pub struct AttemptEntry {
    pub fail_count: u32,
    pub lockout_until_ms: Option<u64>,
}

/// The per-IP login attempt tracker.
pub struct LoginAttemptTracker {
    pub attempts: Vec<(String, AttemptEntry)>,
    pub max_attempts: u32,
    pub lockout_secs: u64,
}

/// Recording one failure: the count rises (saturating), and on reaching
/// `max_attempts` the entry is stamped with a lockout until one lockout
/// period from now.
pub open spec fn spec_record_failure(
    e: Option<AttemptEntry>,
    max_attempts: u32,
    lockout_secs: u64,
    now_ms: u64,
) -> AttemptEntry {
    let cur = match e {
        Some(en) => en,
        None => AttemptEntry { fail_count: 0, lockout_until_ms: None },
    };
    let n = if cur.fail_count == u32::MAX {
        u32::MAX
    } else {
        (cur.fail_count + 1) as u32
    };
    if n >= max_attempts {
        AttemptEntry { fail_count: n, lockout_until_ms: Some(clock::spec_expiry(now_ms, lockout_secs)) }
    } else {
        AttemptEntry { fail_count: n, lockout_until_ms: cur.lockout_until_ms }
    }
}

/// Whether an entry denies requests at `now_ms`: a stamped lockout that has
/// not yet elapsed.
pub open spec fn spec_locked_out(e: Option<AttemptEntry>, now_ms: u64) -> bool {
    match e {
        Some(en) => match en.lockout_until_ms {
            Some(until) => now_ms < until,
            None => false,
        },
        None => false,
    }
}

/// An entry worth keeping during housekeeping: a live lockout or a positive
/// failure count.
pub open spec fn entry_active(now_ms: u64) -> spec_fn((Seq<char>, AttemptEntry)) -> bool {
    |p: (Seq<char>, AttemptEntry)|
        (match p.1.lockout_until_ms {
            Some(until) => until > now_ms,
            None => false,
        }) || p.1.fail_count > 0
}

impl LoginAttemptTracker {
    /// The model of the tracker: IP view to attempt entry.
    pub open spec fn aview(&self) -> Seq<(Seq<char>, AttemptEntry)> {
        kv_view(self.attempts@)
    }

    /// Well-formedness: unique IPs.
    pub open spec fn wf(&self) -> bool {
        unique_keys(self.aview())
    }

    /// Create a tracker. `max_attempts == 0` disables brute-force
    /// protection.
    pub fn new(max_attempts: u32, lockout_secs: u64) -> (r: Self)
        ensures
            r.wf(),
            r.max_attempts == max_attempts,
            r.lockout_secs == lockout_secs,
            r.aview().len() == 0,
    {
        let r = LoginAttemptTracker { attempts: Vec::new(), max_attempts, lockout_secs };
        proof {
            assert(r.aview() =~= Seq::<(Seq<char>, AttemptEntry)>::empty());
        }
        r
    }

    /// Whether the IP may attempt a login at `now_ms`: allowed unless a
    /// live lockout exists. An elapsed lockout is reset on the way.
    pub fn check_at(&mut self, ip: &str, now_ms: u64) -> (r: bool)
        requires
            old(self).wf(),
        ensures
            final(self).wf(),
            final(self).max_attempts == old(self).max_attempts,
            final(self).lockout_secs == old(self).lockout_secs,
            old(self).max_attempts == 0 ==> r && final(self).aview() == old(self).aview(),
            old(self).max_attempts > 0 ==> {
                &&& r == !spec_locked_out(spec_find(old(self).aview(), ip@), now_ms)
                &&& forall|k: Seq<char>|
                    k != ip@ ==> #[trigger] spec_find(final(self).aview(), k) == spec_find(
                        old(self).aview(),
                        k,
                    )
            },
    {
        if self.max_attempts == 0 {
            return true;
        }
        let found: Option<AttemptEntry> = match kvlist::kv_get(&self.attempts, ip) {
            Some(e) => Some(*e),
            None => None,
        };
        match found {
            Some(e) => match e.lockout_until_ms {
                Some(until) => {
                    if now_ms < until {
                        false
                    } else {
                        let ghost before = self.aview();
                        let reset = AttemptEntry { fail_count: 0, lockout_until_ms: None };
                        kvlist::kv_set(&mut self.attempts, ip, reset);
                        proof {
                            kvlist::lemma_insert_find(before, ip@, reset, ip@);
                            assert forall|k: Seq<char>| k != ip@ implies #[trigger] spec_find(
                                self.aview(),
                                k,
                            ) == spec_find(before, k) by {
                                kvlist::lemma_insert_find(before, ip@, reset, k);
                            }
                        }
                        true
                    }
                },
                None => true,
            },
            None => true,
        }
    }

    /// Whether the IP may attempt a login now.
    pub fn check(&mut self, ip: &str) -> (r: bool)
        requires
            old(self).wf(),
        ensures
            final(self).wf(),
            final(self).max_attempts == old(self).max_attempts,
            final(self).lockout_secs == old(self).lockout_secs,
            old(self).max_attempts == 0 ==> r,
            forall|k: Seq<char>|
                k != ip@ ==> #[trigger] spec_find(final(self).aview(), k) == spec_find(
                    old(self).aview(),
                    k,
                ),
    {
        let now = clock::now_millis();
        self.check_at(ip, now)
    }

    /// Record a failed attempt for the IP at `now_ms`; returns the new
    /// failure count. On reaching `max_attempts` the IP is locked out.
    pub fn record_failure_at(&mut self, ip: &str, now_ms: u64) -> (r: u32)
        requires
            old(self).wf(),
        ensures
            final(self).wf(),
            final(self).max_attempts == old(self).max_attempts,
            final(self).lockout_secs == old(self).lockout_secs,
            old(self).max_attempts == 0 ==> r == 0 && final(self).aview() == old(self).aview(),
            old(self).max_attempts > 0 ==> {
                let e = spec_record_failure(
                    spec_find(old(self).aview(), ip@),
                    old(self).max_attempts,
                    old(self).lockout_secs,
                    now_ms,
                );
                &&& r == e.fail_count
                &&& spec_find(final(self).aview(), ip@) == Some(e)
                &&& forall|k: Seq<char>|
                    k != ip@ ==> #[trigger] spec_find(final(self).aview(), k) == spec_find(
                        old(self).aview(),
                        k,
                    )
            },
    {
        if self.max_attempts == 0 {
            return 0;
        }
        let cur: AttemptEntry = match kvlist::kv_get(&self.attempts, ip) {
            Some(e) => *e,
            None => AttemptEntry { fail_count: 0, lockout_until_ms: None },
        };
        let n: u32 = if cur.fail_count == u32::MAX {
            u32::MAX
        } else {
            cur.fail_count + 1
        };
        let updated = if n >= self.max_attempts {
            AttemptEntry {
                fail_count: n,
                lockout_until_ms: Some(clock::expiry(now_ms, self.lockout_secs)),
            }
        } else {
            AttemptEntry { fail_count: n, lockout_until_ms: cur.lockout_until_ms }
        };
        let ghost before = self.aview();
        kvlist::kv_set(&mut self.attempts, ip, updated);
        proof {
            kvlist::lemma_insert_find(before, ip@, updated, ip@);
            assert forall|k: Seq<char>| k != ip@ implies #[trigger] spec_find(self.aview(), k)
                == spec_find(before, k) by {
                kvlist::lemma_insert_find(before, ip@, updated, k);
            }
        }
        n
    }

    /// Record a failed attempt for the IP now.
    pub fn record_failure(&mut self, ip: &str) -> (r: u32)
        requires
            old(self).wf(),
        ensures
            final(self).wf(),
            final(self).max_attempts == old(self).max_attempts,
            final(self).lockout_secs == old(self).lockout_secs,
            forall|k: Seq<char>|
                k != ip@ ==> #[trigger] spec_find(final(self).aview(), k) == spec_find(
                    old(self).aview(),
                    k,
                ),
    {
        let now = clock::now_millis();
        self.record_failure_at(ip, now)
    }

    /// Clear the failure history of an IP (successful login).
    pub fn record_success(&mut self, ip: &str)
        requires
            old(self).wf(),
        ensures
            final(self).wf(),
            final(self).max_attempts == old(self).max_attempts,
            final(self).lockout_secs == old(self).lockout_secs,
            old(self).max_attempts == 0 ==> final(self).aview() == old(self).aview(),
            old(self).max_attempts > 0 ==> spec_find(final(self).aview(), ip@) is None && (forall|
                k: Seq<char>,
            |
                k != ip@ ==> #[trigger] spec_find(final(self).aview(), k) == spec_find(
                    old(self).aview(),
                    k,
                )),
    {
        if self.max_attempts == 0 {
            return ;
        }
        let ghost before = self.aview();
        kvlist::kv_remove(&mut self.attempts, ip);
        proof {
            kvlist::lemma_remove_find(before, ip@, ip@);
            assert forall|k: Seq<char>| k != ip@ implies #[trigger] spec_find(self.aview(), k)
                == spec_find(before, k) by {
                kvlist::lemma_remove_find(before, ip@, k);
            }
        }
    }

    /// The remaining lockout, in whole seconds with a floor of one, or
    /// `None` when the IP is not locked out at `now_ms`.
    pub fn remaining_lockout_secs_at(&self, ip: &str, now_ms: u64) -> (r: Option<u64>)
        ensures
            self.max_attempts == 0 ==> r is None,
            self.max_attempts > 0 ==> r == (match spec_find(self.aview(), ip@) {
                Some(e) => match e.lockout_until_ms {
                    Some(until) => if until > now_ms {
                        if (until - now_ms) / 1000 == 0 {
                            Some(1u64)
                        } else {
                            Some(((until - now_ms) / 1000) as u64)
                        }
                    } else {
                        None::<u64>
                    },
                    None => None::<u64>,
                },
                None => None::<u64>,
            }),
    {
        if self.max_attempts == 0 {
            return None;
        }
        match kvlist::kv_get(&self.attempts, ip) {
            Some(e) => match e.lockout_until_ms {
                Some(until) => {
                    if until > now_ms {
                        let secs = (until - now_ms) / 1000;
                        if secs == 0 {
                            Some(1)
                        } else {
                            Some(secs)
                        }
                    } else {
                        None
                    }
                },
                None => None,
            },
            None => None,
        }
    }

    /// The remaining lockout at the current time.
    pub fn remaining_lockout_secs(&self, ip: &str) -> (r: Option<u64>)
        ensures
            self.max_attempts == 0 ==> r is None,
            r matches Some(s) ==> s >= 1 && spec_find(self.aview(), ip@) is Some,
    {
        let now = crate::clock::now_millis();
        self.remaining_lockout_secs_at(ip, now)
    }

    /// Remove stale entries: those with neither a live lockout nor failures.
    pub fn cleanup_at(&mut self, now_ms: u64)
        requires
            old(self).wf(),
        ensures
            final(self).wf(),
            final(self).max_attempts == old(self).max_attempts,
            final(self).lockout_secs == old(self).lockout_secs,
            final(self).aview() == kvlist::spec_retain(old(self).aview(), entry_active(now_ms)),
    {
        let mut out: Vec<(String, AttemptEntry)> = Vec::new();
        let ghost orig = self.aview();
        loop
            invariant
                self.max_attempts == old(self).max_attempts,
                self.lockout_secs == old(self).lockout_secs,
                kvlist::spec_retain(orig, entry_active(now_ms)) == kv_view(out@)
                    + kvlist::spec_retain(self.aview(), entry_active(now_ms)),
            ensures
                self.max_attempts == old(self).max_attempts,
                self.lockout_secs == old(self).lockout_secs,
                self.attempts@.len() == 0,
                kvlist::spec_retain(orig, entry_active(now_ms)) == kv_view(out@)
                    + kvlist::spec_retain(self.aview(), entry_active(now_ms)),
            decreases self.attempts@.len(),
        {
            if self.attempts.len() == 0 {
                break ;
            }
            let ghost prev = self.aview();
            let pair = self.attempts.remove(0);
            proof {
                assert(self.aview() =~= prev.drop_first());
                assert((pair.0@, pair.1) == prev[0]);
            }
            let keep = (match pair.1.lockout_until_ms {
                Some(until) => until > now_ms,
                None => false,
            }) || pair.1.fail_count > 0;
            if keep {
                out.push(pair);
            }
            proof {
                assert(kvlist::spec_retain(orig, entry_active(now_ms)) =~= kv_view(out@)
                    + kvlist::spec_retain(self.aview(), entry_active(now_ms)));
            }
        }
        proof {
            assert(kvlist::spec_retain(self.aview(), entry_active(now_ms)) =~= Seq::<
                (Seq<char>, AttemptEntry),
            >::empty());
            assert(kvlist::spec_retain(orig, entry_active(now_ms)) =~= kv_view(out@));
            kvlist::lemma_retain_unique(orig, entry_active(now_ms));
        }
        self.attempts = out;
    }

    /// Remove stale entries against the current time: the surviving map is
    /// the retained part of the old one at some clock reading.
    pub fn cleanup(&mut self)
        requires
            old(self).wf(),
        ensures
            final(self).wf(),
            final(self).max_attempts == old(self).max_attempts,
            final(self).lockout_secs == old(self).lockout_secs,
            exists|now: u64|
                final(self).aview() == kvlist::spec_retain(
                    old(self).aview(),
                    entry_active(now),
                ),
    {
        let now = clock::now_millis();
        self.cleanup_at(now);
        proof {
            assert(self.aview() == kvlist::spec_retain(old(self).aview(), entry_active(now)));
        }
    }
}

/// The entry after `n` failures recorded at one instant, starting with no
/// record.
pub open spec fn entry_after_failures(max_attempts: u32, lockout_secs: u64, now_ms: u64, n: nat) -> Option<
    AttemptEntry,
>
    decreases n,
{
    if n == 0 {
        None
    } else {
        Some(
            spec_record_failure(
                entry_after_failures(max_attempts, lockout_secs, now_ms, (n - 1) as nat),
                max_attempts,
                lockout_secs,
                now_ms,
            ),
        )
    }
}

/// Lockout: after `max_attempts` failures recorded at time `t`, the IP is
/// locked out at any instant before `t + lockout_secs` seconds, and the
/// remaining lockout is between one second and `lockout_secs`.
pub proof fn lemma_lockout_after_max_failures(
    max_attempts: u32,
    lockout_secs: u64,
    t: u64,
    t2: u64,
)
    requires
        0 < max_attempts < u32::MAX,
        t <= t2,
        t2 < clock::spec_expiry(t, lockout_secs),
    ensures
        ({
            let e = entry_after_failures(max_attempts, lockout_secs, t, max_attempts as nat);
            &&& spec_locked_out(e, t2)
            &&& e matches Some(en) && en.lockout_until_ms matches Some(until) && t2 < until && {
                let remaining = if (until - t2) / 1000 == 0 {
                    1
                } else {
                    (until - t2) / 1000
                };
                1 <= remaining <= lockout_secs
            }
        }),
{
    lemma_failures_count(max_attempts, lockout_secs, t, max_attempts as nat);
    let e = entry_after_failures(max_attempts, lockout_secs, t, max_attempts as nat);
    let en = e->Some_0;
    assert(en.fail_count == max_attempts);
    let until = en.lockout_until_ms->Some_0;
    assert(until == clock::spec_expiry(t, lockout_secs));
    assert(until - t2 <= lockout_secs * 1000);
    let remaining = if (until - t2) / 1000 == 0 {
        1int
    } else {
        (until - t2) / 1000
    };
    assert((until - t2) / 1000 <= lockout_secs);
    assert(lockout_secs >= 1 ==> remaining <= lockout_secs);
    assert(lockout_secs == 0 ==> until <= t);
}

/// Counting: `n` failures recorded at one instant yield a failure count of
/// `n`, and once the count reaches `max_attempts` the lockout stamp is set.
proof fn lemma_failures_count(max_attempts: u32, lockout_secs: u64, now_ms: u64, n: nat)
    requires
        0 < max_attempts < u32::MAX,
        n <= max_attempts,
    ensures
        n == 0 ==> entry_after_failures(max_attempts, lockout_secs, now_ms, n) is None,
        n > 0 ==> (entry_after_failures(max_attempts, lockout_secs, now_ms, n) matches Some(en)
            && en.fail_count == n && (en.lockout_until_ms == if n == max_attempts {
            Some(clock::spec_expiry(now_ms, lockout_secs))
        } else {
            None::<u64>
        })),
    decreases n,
{
    if n > 0 {
        lemma_failures_count(max_attempts, lockout_secs, now_ms, (n - 1) as nat);
    }
}

} // verus!
