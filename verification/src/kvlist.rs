//! A string-keyed association list with unique keys, the backing store for
//! the session map, rate-limiter buckets, login-attempt tracker and query
//! cache. Its model is a sequence of `(key view, value)` pairs; lookup is
//! first-match.

use vstd::prelude::*;
use crate::text;

verus! {

/// The model of a key-value list: each pair reduced to its key's view.
pub open spec fn kv_view<V>(m: Seq<(String, V)>) -> Seq<(Seq<char>, V)> {
    m.map_values(|p: (String, V)| (p.0@, p.1))
}

/// The value bound to `k`: that of the first pair whose key is `k`.
pub open spec fn spec_find<V>(m: Seq<(Seq<char>, V)>, k: Seq<char>) -> Option<V>
    decreases m.len(),
{
    if m.len() == 0 {
        None
    } else if m[0].0 == k {
        Some(m[0].1)
    } else {
        spec_find(m.drop_first(), k)
    }
}

/// Index of the first pair whose key is `k`, or -1 when absent.
pub open spec fn spec_key_idx<V>(m: Seq<(Seq<char>, V)>, k: Seq<char>) -> int
    decreases m.len(),
{
    if m.len() == 0 {
        -1
    } else if m[0].0 == k {
        0
    } else {
        let r = spec_key_idx(m.drop_first(), k);
        if r < 0 {
            -1
        } else {
            r + 1
        }
    }
}

/// `m` with the binding for `k` replaced by `v`, or appended when absent.
pub open spec fn spec_insert<V>(m: Seq<(Seq<char>, V)>, k: Seq<char>, v: V) -> Seq<
    (Seq<char>, V),
> {
    let i = spec_key_idx(m, k);
    if i < 0 {
        m.push((k, v))
    } else {
        m.remove(i).push((k, v))
    }
}

/// `m` without the first binding for `k`.
pub open spec fn spec_remove<V>(m: Seq<(Seq<char>, V)>, k: Seq<char>) -> Seq<(Seq<char>, V)> {
    let i = spec_key_idx(m, k);
    if i < 0 {
        m
    } else {
        m.remove(i)
    }
}

/// The defining properties of `spec_key_idx`.
pub proof fn lemma_key_idx<V>(m: Seq<(Seq<char>, V)>, k: Seq<char>)
    ensures
        spec_key_idx(m, k) == -1 ==> (forall|j: int| 0 <= j < m.len() ==> (#[trigger] m[j]).0 != k),
        spec_key_idx(m, k) != -1 ==> {
            let i = spec_key_idx(m, k);
            &&& 0 <= i < m.len()
            &&& m[i].0 == k
            &&& forall|j: int| 0 <= j < i ==> (#[trigger] m[j]).0 != k
        },
        spec_key_idx(m, k) == -1 <==> spec_find(m, k) is None,
        spec_key_idx(m, k) != -1 ==> spec_find(m, k) == Some(m[spec_key_idx(m, k)].1),
    decreases m.len(),
{
    if m.len() > 0 && m[0].0 != k {
        let t = m.drop_first();
        lemma_key_idx(t, k);
        let r = spec_key_idx(t, k);
        if r < 0 {
            assert forall|j: int| 0 <= j < m.len() implies (#[trigger] m[j]).0 != k by {
                if j >= 1 {
                    assert(t[j - 1].0 != k);
                    assert(t[j - 1] == m[j]);
                }
            }
        } else {
            assert(m[r + 1] == t[r]);
            assert forall|j: int| 0 <= j < r + 1 implies (#[trigger] m[j]).0 != k by {
                if j >= 1 {
                    assert(t[j - 1].0 != k);
                    assert(t[j - 1] == m[j]);
                }
            }
        }
    }
}

/// Find the index of the first pair whose key is `k`.
fn kv_find_idx<V>(m: &Vec<(String, V)>, k: &str) -> (r: Option<usize>)
    ensures
        match r {
            Some(i) => i < m@.len() && spec_key_idx(kv_view(m@), k@) == i as int,
            None => spec_key_idx(kv_view(m@), k@) == -1,
        },
{
    proof {
        lemma_key_idx(kv_view(m@), k@);
    }
    let mut i: usize = 0;
    while i < m.len()
        invariant
            0 <= i <= m@.len(),
            kv_view(m@).len() == m@.len(),
            forall|j: int| 0 <= j < i ==> (#[trigger] kv_view(m@)[j]).0 != k@,
            spec_key_idx(kv_view(m@), k@) == -1 ==> (forall|j: int|
                0 <= j < m@.len() ==> (#[trigger] kv_view(m@)[j]).0 != k@),
            spec_key_idx(kv_view(m@), k@) != -1 ==> {
                let x = spec_key_idx(kv_view(m@), k@);
                &&& 0 <= x < m@.len()
                &&& kv_view(m@)[x].0 == k@
                &&& forall|j: int| 0 <= j < x ==> (#[trigger] kv_view(m@)[j]).0 != k@
            },
        decreases m@.len() - i,
    {
        let pair = &m[i];
        let kc = text::chars_of(pair.0.as_str());
        proof {
            assert(kv_view(m@)[i as int].0 == m@[i as int].0@);
        }
        if text::slice_eq_str(kc.as_slice(), k) {
            return Some(i);
        }
        i = i + 1;
    }
    None
}

/// Look up the value bound to `k`.
pub fn kv_get<'a, V>(m: &'a Vec<(String, V)>, k: &str) -> (r: Option<&'a V>)
    ensures
        match r {
            Some(v) => spec_find(kv_view(m@), k@) == Some(*v),
            None => spec_find(kv_view(m@), k@) is None,
        },
{
    proof {
        lemma_key_idx(kv_view(m@), k@);
    }
    match kv_find_idx(m, k) {
        Some(i) => {
            let pair = &m[i];
            proof {
                assert(kv_view(m@)[i as int].1 == m@[i as int].1);
            }
            Some(&pair.1)
        },
        None => None,
    }
}

/// Bind `k` to `v`, replacing any existing binding.
pub fn kv_set<V>(m: &mut Vec<(String, V)>, k: &str, v: V)
    ensures
        kv_view(final(m)@) == spec_insert(kv_view(old(m)@), k@, v),
{
    match kv_find_idx(m, k) {
        Some(i) => {
            m.remove(i);
            m.push((String::from_str(k), v));
            proof {
                assert(kv_view(m@) =~= spec_insert(kv_view(old(m)@), k@, v));
            }
        },
        None => {
            m.push((String::from_str(k), v));
            proof {
                assert(kv_view(m@) =~= spec_insert(kv_view(old(m)@), k@, v));
            }
        },
    }
}

/// Drop the binding for `k`, if any.
pub fn kv_remove<V>(m: &mut Vec<(String, V)>, k: &str)
    ensures
        kv_view(final(m)@) == spec_remove(kv_view(old(m)@), k@),
{
    match kv_find_idx(m, k) {
        Some(i) => {
            m.remove(i);
            proof {
                assert(kv_view(m@) =~= spec_remove(kv_view(old(m)@), k@));
            }
        },
        None => {
            proof {
                assert(kv_view(m@) =~= spec_remove(kv_view(old(m)@), k@));
            }
        },
    }
}

/// Pairwise-distinct keys: the well-formedness invariant of every store
/// built on this list.
pub open spec fn unique_keys<V>(m: Seq<(Seq<char>, V)>) -> bool {
    forall|i: int, j: int| 0 <= i < j < m.len() ==> (#[trigger] m[i]).0 != (#[trigger] m[j]).0
}

/// With unique keys, removing the pair at the key's index leaves the key
/// unbound.
proof fn lemma_remove_unbinds<V>(m: Seq<(Seq<char>, V)>, i: int, k: Seq<char>)
    requires
        unique_keys(m),
        0 <= i < m.len(),
        m[i].0 == k,
    ensures
        spec_find(m.remove(i), k) is None,
        forall|j: int| 0 <= j < m.len() - 1 ==> (#[trigger] m.remove(i)[j]).0 != k,
{
    let mr = m.remove(i);
    assert forall|j: int| 0 <= j < mr.len() implies (#[trigger] mr[j]).0 != k by {
        if j < i {
            assert(mr[j] == m[j]);
        } else {
            assert(mr[j] == m[j + 1]);
        }
    }
    lemma_key_idx(mr, k);
    if spec_key_idx(mr, k) != -1 {
        assert(mr[spec_key_idx(mr, k)].0 == k);
    }
}

/// After an insert, looking the key up yields the new value, every other
/// key is bound exactly as before, and the keys stay unique.
pub proof fn lemma_insert_find<V>(m: Seq<(Seq<char>, V)>, k: Seq<char>, v: V, k2: Seq<char>)
    requires
        unique_keys(m),
    ensures
        spec_find(spec_insert(m, k, v), k) == Some(v),
        k2 != k ==> spec_find(spec_insert(m, k, v), k2) == spec_find(m, k2),
        unique_keys(spec_insert(m, k, v)),
{
    lemma_key_idx(m, k);
    let i = spec_key_idx(m, k);
    if i < 0 {
        lemma_find_push_absent(m, k, v, k);
        if k2 != k {
            lemma_find_push_absent(m, k, v, k2);
        }
        let w = m.push((k, v));
        assert forall|a: int, b: int| 0 <= a < b < w.len() implies (#[trigger] w[a]).0 != (
        #[trigger] w[b]).0 by {
            if b < w.len() - 1 {
                assert(w[a] == m[a] && w[b] == m[b]);
            } else {
                assert(w[a] == m[a] && w[b] == (k, v));
            }
        }
    } else {
        lemma_remove_unbinds(m, i, k);
        let mr = m.remove(i);
        lemma_find_push_absent(mr, k, v, k);
        if k2 != k {
            lemma_find_push_absent(mr, k, v, k2);
            lemma_find_remove_other(m, i, k, k2);
        }
        assert forall|a: int, b: int| 0 <= a < b < mr.len() implies (#[trigger] mr[a]).0 != (
        #[trigger] mr[b]).0 by {
            let a0 = if a < i {
                a
            } else {
                a + 1
            };
            let b0 = if b < i {
                b
            } else {
                b + 1
            };
            assert(mr[a] == m[a0] && mr[b] == m[b0]);
        }
        let w = mr.push((k, v));
        assert forall|a: int, b: int| 0 <= a < b < w.len() implies (#[trigger] w[a]).0 != (
        #[trigger] w[b]).0 by {
            if b < w.len() - 1 {
                assert(w[a] == mr[a] && w[b] == mr[b]);
            } else {
                assert(w[a] == mr[a] && w[b] == (k, v));
            }
        }
    }
}

/// Removing a binding keeps the remaining bindings and the uniqueness of
/// the keys.
pub proof fn lemma_remove_find<V>(m: Seq<(Seq<char>, V)>, k: Seq<char>, k2: Seq<char>)
    requires
        unique_keys(m),
    ensures
        spec_find(spec_remove(m, k), k) is None,
        k2 != k ==> spec_find(spec_remove(m, k), k2) == spec_find(m, k2),
        unique_keys(spec_remove(m, k)),
{
    lemma_key_idx(m, k);
    let i = spec_key_idx(m, k);
    if i >= 0 {
        lemma_remove_unbinds(m, i, k);
        let mr = m.remove(i);
        if k2 != k {
            lemma_find_remove_other(m, i, k, k2);
        }
        assert forall|a: int, b: int| 0 <= a < b < mr.len() implies (#[trigger] mr[a]).0 != (
        #[trigger] mr[b]).0 by {
            let a0 = if a < i {
                a
            } else {
                a + 1
            };
            let b0 = if b < i {
                b
            } else {
                b + 1
            };
            assert(mr[a] == m[a0] && mr[b] == m[b0]);
        }
    }
}

/// Looking up in `m.push((k, v))`: the key `k` finds `v` when it was absent
/// before; any other key is unaffected by the push.
proof fn lemma_find_push_absent<V>(m: Seq<(Seq<char>, V)>, k: Seq<char>, v: V, k2: Seq<char>)
    requires
        spec_find(m, k) is None,
    ensures
        k2 == k ==> spec_find(m.push((k, v)), k2) == Some(v),
        k2 != k ==> spec_find(m.push((k, v)), k2) == spec_find(m, k2),
    decreases m.len(),
{
    if m.len() == 0 {
        assert(m.push((k, v))[0] == (k, v));
        assert(m.push((k, v)).drop_first() =~= Seq::<(Seq<char>, V)>::empty());
    } else {
        assert(m.push((k, v)).drop_first() =~= m.drop_first().push((k, v)));
        lemma_find_push_absent(m.drop_first(), k, v, k2);
    }
}

/// Removing the pair at `i` does not change the binding of a key that pair
/// does not carry, provided no earlier pair carries `k` either.
proof fn lemma_find_remove_other<V>(m: Seq<(Seq<char>, V)>, i: int, k: Seq<char>, k2: Seq<char>)
    requires
        0 <= i < m.len(),
        m[i].0 == k,
        k2 != k,
        forall|j: int| 0 <= j < i ==> (#[trigger] m[j]).0 != k,
    ensures
        spec_find(m.remove(i), k2) == spec_find(m, k2),
    decreases i,
{
    if i == 0 {
        assert(m.remove(0) =~= m.drop_first());
    } else {
        assert(m.remove(i).drop_first() =~= m.drop_first().remove(i - 1));
        let t = m.drop_first();
        assert(forall|j: int| 0 <= j < i - 1 ==> #[trigger] t[j] == m[j + 1]);
        lemma_find_remove_other(t, i - 1, k, k2);
        assert(m.remove(i)[0] == m[0]);
    }
}

/// The pairs of `m` that satisfy `p`, in order.
pub open spec fn spec_retain<V>(m: Seq<(Seq<char>, V)>, p: spec_fn((Seq<char>, V)) -> bool) -> Seq<
    (Seq<char>, V),
>
    decreases m.len(),
{
    if m.len() == 0 {
        Seq::empty()
    } else {
        (if p(m[0]) {
            seq![m[0]]
        } else {
            Seq::<(Seq<char>, V)>::empty()
        }) + spec_retain(m.drop_first(), p)
    }
}

/// A key bound in the retained list was bound in the original list.
proof fn lemma_retain_keys<V>(m: Seq<(Seq<char>, V)>, p: spec_fn((Seq<char>, V)) -> bool, k: Seq<char>)
    requires
        forall|j: int| 0 <= j < m.len() ==> (#[trigger] m[j]).0 != k,
    ensures
        forall|j: int|
            0 <= j < spec_retain(m, p).len() ==> (#[trigger] spec_retain(m, p)[j]).0 != k,
    decreases m.len(),
{
    if m.len() > 0 {
        let t = m.drop_first();
        assert(forall|j: int| 0 <= j < t.len() ==> (#[trigger] t[j]).0 != k);
        lemma_retain_keys(t, p, k);
        let r = spec_retain(m, p);
        let rt = spec_retain(t, p);
        assert forall|j: int| 0 <= j < r.len() implies (#[trigger] r[j]).0 != k by {
            if p(m[0]) {
                if j == 0 {
                    assert(r[0] == m[0]);
                } else {
                    assert(r[j] == rt[j - 1]);
                }
            } else {
                assert(r[j] == rt[j]);
            }
        }
    }
}

/// Retaining keeps the keys unique.
pub proof fn lemma_retain_unique<V>(m: Seq<(Seq<char>, V)>, p: spec_fn((Seq<char>, V)) -> bool)
    requires
        unique_keys(m),
    ensures
        unique_keys(spec_retain(m, p)),
    decreases m.len(),
{
    if m.len() > 0 {
        let t = m.drop_first();
        assert forall|a: int, b: int| 0 <= a < b < t.len() implies (#[trigger] t[a]).0 != (
        #[trigger] t[b]).0 by {
            assert(t[a] == m[a + 1] && t[b] == m[b + 1]);
        }
        lemma_retain_unique(t, p);
        let rt = spec_retain(t, p);
        if p(m[0]) {
            assert(forall|j: int| 0 <= j < t.len() ==> (#[trigger] t[j]).0 != m[0].0);
            lemma_retain_keys(t, p, m[0].0);
            let r = spec_retain(m, p);
            assert(r =~= seq![m[0]] + rt);
            assert forall|a: int, b: int| 0 <= a < b < r.len() implies (#[trigger] r[a]).0 != (
            #[trigger] r[b]).0 by {
                if a == 0 {
                    assert(r[b] == rt[b - 1]);
                } else {
                    assert(r[a] == rt[a - 1] && r[b] == rt[b - 1]);
                }
            }
        } else {
            assert(spec_retain(m, p) =~= rt);
        }
    }
}

/// What retaining does to lookups: a binding survives exactly when its pair
/// satisfies the predicate.
pub proof fn lemma_retain_find<V>(
    m: Seq<(Seq<char>, V)>,
    p: spec_fn((Seq<char>, V)) -> bool,
    k: Seq<char>,
)
    requires
        unique_keys(m),
    ensures
        spec_find(spec_retain(m, p), k) == (match spec_find(m, k) {
            Some(v) => if p((k, v)) {
                Some(v)
            } else {
                None::<V>
            },
            None => None,
        }),
    decreases m.len(),
{
    if m.len() > 0 {
        let t = m.drop_first();
        assert forall|a: int, b: int| 0 <= a < b < t.len() implies (#[trigger] t[a]).0 != (
        #[trigger] t[b]).0 by {
            assert(t[a] == m[a + 1] && t[b] == m[b + 1]);
        }
        lemma_retain_find(t, p, k);
        let r = spec_retain(m, p);
        let rt = spec_retain(t, p);
        if m[0].0 == k {
            assert((k, m[0].1) == m[0]);
            assert(forall|j: int| 0 <= j < t.len() ==> (#[trigger] t[j]).0 != k);
            lemma_key_idx(t, k);
            if spec_key_idx(t, k) != -1 {
                assert(t[spec_key_idx(t, k)].0 == k);
            }
            if p(m[0]) {
                assert(r =~= seq![m[0]] + rt);
                assert(r[0] == m[0]);
            } else {
                assert(r =~= rt);
                lemma_retain_keys(t, p, k);
                lemma_key_idx(rt, k);
                if spec_key_idx(rt, k) != -1 {
                    assert(rt[spec_key_idx(rt, k)].0 == k);
                }
            }
        } else {
            if p(m[0]) {
                assert(r =~= seq![m[0]] + rt);
                assert(r[0] == m[0]);
                assert(r.drop_first() =~= rt);
            } else {
                assert(r =~= rt);
            }
        }
    }
}

} // verus!
