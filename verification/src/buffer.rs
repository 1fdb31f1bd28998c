//! The bounded event buffer. Events accumulate until the flush threshold
//! is reached; a flush atomically drains the whole buffer, and a failed
//! flush restores the drained events to the front — in front of anything
//! pushed in the meantime — so no event is ever silently dropped.

use vstd::prelude::*;
use vstd::multiset::Multiset;
use crate::dates;
use crate::ingest::Event;
use crate::text;

verus! {

broadcast use vstd::seq_lib::group_to_multiset_ensures, vstd::multiset::group_multiset_axioms;

/// The in-memory event buffer with its flush threshold.
pub struct EventBuffer {
    pub events: Vec<Event>,
    pub flush_threshold: usize,
}

impl EventBuffer {
    /// Create an empty buffer that asks for a flush at `flush_threshold`
    /// events.
    pub fn new(flush_threshold: usize) -> (r: Self)
        ensures
            r.events@.len() == 0,
            r.flush_threshold == flush_threshold,
    {
        EventBuffer { events: Vec::new(), flush_threshold }
    }

    /// Append an event. Returns whether the buffer has reached its flush
    /// threshold and a flush is due.
    pub fn push(&mut self, event: Event) -> (r: bool)
        ensures
            final(self).events@ == old(self).events@.push(event),
            final(self).flush_threshold == old(self).flush_threshold,
            r == (final(self).events@.len() >= final(self).flush_threshold),
    {
        self.events.push(event);
        self.events.len() >= self.flush_threshold
    }

    /// The number of buffered events.
    pub fn len(&self) -> (r: usize)
        ensures
            r == self.events@.len(),
    {
        self.events.len()
    }

    /// Whether the buffer is empty.
    pub fn is_empty(&self) -> (r: bool)
        ensures
            r == (self.events@.len() == 0),
    {
        self.events.is_empty()
    }

    /// Atomically drain the buffer for a flush: every buffered event is
    /// handed out in order and the buffer is left empty, so a concurrent
    /// push lands in the empty buffer and no event is processed twice.
    pub fn begin_flush(&mut self) -> (r: Vec<Event>)
        ensures
            r@ == old(self).events@,
            final(self).events@.len() == 0,
            final(self).flush_threshold == old(self).flush_threshold,
    {
        let mut drained: Vec<Event> = Vec::new();
        core::mem::swap(&mut self.events, &mut drained);
        drained
    }

    /// Restore drained events after a failed flush: they return to the
    /// front of the buffer, in their original order, ahead of anything
    /// pushed since the drain.
    pub fn restore_after_failure(&mut self, drained: Vec<Event>)
        ensures
            final(self).events@ == drained@ + old(self).events@,
            final(self).flush_threshold == old(self).flush_threshold,
    {
        let mut restored = drained;
        restored.append(&mut self.events);
        core::mem::swap(&mut self.events, &mut restored);
    }
}

/// Flush atomicity: if a flush drains the buffer and then fails, restoring
/// the drained events leaves the buffer holding exactly the events it held
/// before the flush, followed by the events pushed during it — nothing is
/// lost, and the original order is kept.
pub proof fn lemma_flush_rollback(before: Seq<Event>, pushed_during: Seq<Event>)
    ensures
        before + (Seq::<Event>::empty() + pushed_during) == before + pushed_during,
{
    assert(before + (Seq::<Event>::empty() + pushed_during) =~= before + pushed_during);
}

/// One partition's worth of drained events: its site, its `YYYY-MM-DD`
/// date, and the events themselves.
pub open spec fn group_seqs(r: Seq<(String, String, Vec<Event>)>) -> Seq<Seq<Event>> {
    r.map_values(|g: (String, String, Vec<Event>)| g.2@)
}

/// The multiset of all events held across the groups.
pub open spec fn groups_multiset(r: Seq<(String, String, Vec<Event>)>) -> Multiset<Event>
    decreases r.len(),
{
    if r.len() == 0 {
        Multiset::empty()
    } else {
        groups_multiset(r.drop_last()).add(r.last().2@.to_multiset())
    }
}

/// Appending a group adds exactly its events.
proof fn lemma_groups_multiset_push(r: Seq<(String, String, Vec<Event>)>, g: (String, String, Vec<Event>))
    ensures
        groups_multiset(r.push(g)) == groups_multiset(r).add(g.2@.to_multiset()),
{
    assert(r.push(g).drop_last() =~= r);
    assert(r.push(g).last() == g);
}

/// Inserting a group anywhere adds exactly its events.
proof fn lemma_groups_multiset_insert(
    r: Seq<(String, String, Vec<Event>)>,
    idx: int,
    g: (String, String, Vec<Event>),
)
    requires
        0 <= idx <= r.len(),
    ensures
        groups_multiset(r.insert(idx, g)) == groups_multiset(r).add(g.2@.to_multiset()),
    decreases r.len() - idx,
{
    if idx == r.len() {
        assert(r.insert(idx, g) =~= r.push(g));
        lemma_groups_multiset_push(r, g);
    } else {
        let w = r.insert(idx, g);
        assert(w.drop_last() =~= r.drop_last().insert(idx, g));
        assert(w.last() == r.last());
        lemma_groups_multiset_insert(r.drop_last(), idx, g);
        assert(groups_multiset(w) =~= groups_multiset(r).add(g.2@.to_multiset()));
    }
}

/// Removing a group takes away exactly its events.
proof fn lemma_groups_multiset_remove(r: Seq<(String, String, Vec<Event>)>, idx: int)
    requires
        0 <= idx < r.len(),
    ensures
        groups_multiset(r) == groups_multiset(r.remove(idx)).add(r[idx].2@.to_multiset()),
    decreases r.len() - idx,
{
    if idx == r.len() - 1 {
        assert(r.remove(idx) =~= r.drop_last());
        assert(r[idx] == r.last());
    } else {
        let w = r.remove(idx);
        assert(w.drop_last() =~= r.drop_last().remove(idx));
        assert(w.last() == r.last());
        lemma_groups_multiset_remove(r.drop_last(), idx);
        assert(r.drop_last()[idx] == r[idx]);
        assert(groups_multiset(r) =~= groups_multiset(w).add(r[idx].2@.to_multiset()));
    }
}

/// The groups' flattened event sequence carries the same multiset as the
/// group-wise sum.
proof fn lemma_groups_multiset_flatten(r: Seq<(String, String, Vec<Event>)>)
    ensures
        group_seqs(r).flatten().to_multiset() == groups_multiset(r),
    decreases r.len(),
{
    group_seqs(r).lemma_flatten_and_flatten_alt_are_equivalent();
    if r.len() == 0 {
        assert(group_seqs(r).len() == 0);
        assert(group_seqs(r).flatten_alt() =~= Seq::<Event>::empty());
        vstd::multiset::lemma_multiset_empty_len(Seq::<Event>::empty().to_multiset());
    } else {
        lemma_groups_multiset_flatten(r.drop_last());
        group_seqs(r.drop_last()).lemma_flatten_and_flatten_alt_are_equivalent();
        let m = group_seqs(r);
        assert(m.drop_last() =~= group_seqs(r.drop_last()));
        assert(m.last() == r.last().2@);
        assert(m.flatten_alt() == m.drop_last().flatten_alt() + m.last());
        vstd::seq_lib::lemma_multiset_commutative(m.drop_last().flatten_alt(), m.last());
        assert(m.flatten().to_multiset() =~= groups_multiset(r));
    }
}

/// Find the group carrying the given site and date key.
fn find_group(r: &Vec<(String, String, Vec<Event>)>, site: &str, date: &str) -> (res: Option<
    usize,
>)
    ensures
        match res {
            Some(idx) => idx < r@.len() && r@[idx as int].0@ == site@ && r@[idx as int].1@
                == date@,
            None => forall|j: int|
                0 <= j < r@.len() ==> !((#[trigger] r@[j]).0@ == site@ && r@[j].1@ == date@),
        },
{
    let mut i: usize = 0;
    while i < r.len()
        invariant
            0 <= i <= r@.len(),
            forall|j: int| 0 <= j < i ==> !((#[trigger] r@[j]).0@ == site@ && r@[j].1@ == date@),
        decreases r@.len() - i,
    {
        let sc = text::chars_of(r[i].0.as_str());
        let dc = text::chars_of(r[i].1.as_str());
        if text::slice_eq_str(sc.as_slice(), site) && text::slice_eq_str(dc.as_slice(), date) {
            return Some(i);
        }
        i = i + 1;
    }
    None
}

/// Group events by their `(site_id, date)` partition key — the flush
/// protocol's first step. Keys are pairwise distinct, every event sits in
/// the group of its own site and date, and no event is lost or duplicated.
pub fn group_by_partition(events: Vec<Event>) -> (r: Vec<(String, String, Vec<Event>)>)
    ensures
        forall|i: int, j: int|
            0 <= i < j < r@.len() ==> ((#[trigger] r@[i]).0@, r@[i].1@) != ((#[trigger] r@[j]).0@,
            r@[j].1@),
        forall|i: int, k: int|
            #![trigger r@[i].2@[k]]
            0 <= i < r@.len() && 0 <= k < r@[i].2@.len() ==> r@[i].2@[k].site_id@ == r@[i].0@
                && dates::spec_format_date(r@[i].2@[k].timestamp.date) == r@[i].1@,
        group_seqs(r@).flatten().to_multiset() == events@.to_multiset(),
{
    let mut rem = events;
    let ghost orig = rem@;
    let mut r: Vec<(String, String, Vec<Event>)> = Vec::new();
    proof {
        assert(groups_multiset(r@) =~= Multiset::<Event>::empty());
    }
    loop
        invariant
            groups_multiset(r@).add(rem@.to_multiset()) =~= orig.to_multiset(),
            forall|i: int, j: int|
                0 <= i < j < r@.len() ==> ((#[trigger] r@[i]).0@, r@[i].1@) != ((
                #[trigger] r@[j]).0@, r@[j].1@),
            forall|i: int, k: int|
                #![trigger r@[i].2@[k]]
                0 <= i < r@.len() && 0 <= k < r@[i].2@.len() ==> r@[i].2@[k].site_id@ == r@[i].0@
                    && dates::spec_format_date(r@[i].2@[k].timestamp.date) == r@[i].1@,
        ensures
            rem@.len() == 0,
            groups_multiset(r@).add(rem@.to_multiset()) =~= orig.to_multiset(),
            forall|i: int, j: int|
                0 <= i < j < r@.len() ==> ((#[trigger] r@[i]).0@, r@[i].1@) != ((
                #[trigger] r@[j]).0@, r@[j].1@),
            forall|i: int, k: int|
                #![trigger r@[i].2@[k]]
                0 <= i < r@.len() && 0 <= k < r@[i].2@.len() ==> r@[i].2@[k].site_id@ == r@[i].0@
                    && dates::spec_format_date(r@[i].2@[k].timestamp.date) == r@[i].1@,
        decreases rem@.len(),
    {
        if rem.len() == 0 {
            break ;
        }
        let ghost prev_rem = rem@;
        let e = rem.remove(0);
        proof {
            assert(rem@ =~= prev_rem.remove(0));
            assert(prev_rem.remove(0).to_multiset() =~= prev_rem.to_multiset().remove(
                prev_rem[0],
            ));
            assert(prev_rem.to_multiset().count(e) > 0);
        }
        let date = dates::format_date(&e.timestamp.date);
        let site = e.site_id.clone();
        match find_group(&r, site.as_str(), date.as_str()) {
            Some(idx) => {
                let ghost prev_r = r@;
                let mut g = r.remove(idx);
                let ghost g0 = g;
                g.2.push(e);
                let ghost g1 = g;
                r.insert(idx, g);
                proof {
                    assert(r@ =~= prev_r.remove(idx as int).insert(idx as int, g1));
                    lemma_groups_multiset_remove(prev_r, idx as int);
                    lemma_groups_multiset_insert(prev_r.remove(idx as int), idx as int, g1);
                    assert(g1.2@ =~= g0.2@.push(e));
                    assert(g1.2@.to_multiset() =~= g0.2@.to_multiset().insert(e));
                    assert(r@ =~= prev_r.update(idx as int, g1));
                    assert(groups_multiset(r@).add(rem@.to_multiset()) =~= orig.to_multiset());
                    assert forall|i: int, k: int|
                        #![trigger r@[i].2@[k]]
                        0 <= i < r@.len() && 0 <= k < r@[i].2@.len() implies r@[i].2@[k].site_id@
                        == r@[i].0@ && dates::spec_format_date(r@[i].2@[k].timestamp.date)
                        == r@[i].1@ by {
                        if i == idx as int {
                            assert(r@[i] == g1);
                            if k < g0.2@.len() {
                                assert(g1.2@[k] == prev_r[i].2@[k]);
                                assert(prev_r[i].2@[k].site_id@ == prev_r[i].0@);
                            } else {
                                assert(g1.2@[k] == e);
                            }
                        } else {
                            assert(r@[i] == prev_r[i]);
                        }
                    }
                }
            },
            None => {
                let ghost prev_r = r@;
                let mut ge: Vec<Event> = Vec::new();
                ge.push(e);
                let ghost gn = (site, date, ge);
                r.push((site, date, ge));
                proof {
                    assert(r@ =~= prev_r.push(gn));
                    lemma_groups_multiset_push(prev_r, gn);
                    assert(gn.2@ =~= Seq::<Event>::empty().push(e));
                    assert(gn.2@.to_multiset() =~= Seq::<Event>::empty().to_multiset().insert(e));
                    vstd::multiset::lemma_multiset_empty_len(Seq::<Event>::empty().to_multiset());
                    assert(groups_multiset(r@).add(rem@.to_multiset()) =~= orig.to_multiset());
                    assert forall|i: int, j: int|
                        0 <= i < j < r@.len() implies ((#[trigger] r@[i]).0@, r@[i].1@) != ((
                    #[trigger] r@[j]).0@, r@[j].1@) by {
                        if j == r@.len() - 1 {
                            assert(r@[i] == prev_r[i]);
                            assert(!(prev_r[i].0@ == gn.0@ && prev_r[i].1@ == gn.1@));
                        } else {
                            assert(r@[i] == prev_r[i] && r@[j] == prev_r[j]);
                        }
                    }
                    assert forall|i: int, k: int|
                        #![trigger r@[i].2@[k]]
                        0 <= i < r@.len() && 0 <= k < r@[i].2@.len() implies r@[i].2@[k].site_id@
                        == r@[i].0@ && dates::spec_format_date(r@[i].2@[k].timestamp.date)
                        == r@[i].1@ by {
                        if i == r@.len() - 1 {
                            assert(r@[i] == gn);
                            assert(gn.2@[k] == e);
                        } else {
                            assert(r@[i] == prev_r[i]);
                        }
                    }
                }
            },
        }
    }
    proof {
        vstd::multiset::lemma_multiset_empty_len(rem@.to_multiset());
        assert(groups_multiset(r@) =~= orig.to_multiset());
        lemma_groups_multiset_flatten(r@);
    }
    r
}

} // verus!
