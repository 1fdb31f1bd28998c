//! The core aggregations, computed directly over event values: site and
//! date-range filtering, distinct-visitor and pageview counts, time-series
//! bucketing and dimension breakdowns. These are the counts the stats
//! endpoints serve; they need no query engine.

use vstd::prelude::*;
use crate::dates;
use crate::dates::Date;
use crate::ingest::Event;
use crate::queries;
use crate::queries::{BreakdownRow, CoreMetrics, Dimension, Granularity, TimeBucket};
use crate::storage::spec_lex_lt;
use crate::text;

verus! {

broadcast use vstd::set::group_set_axioms;

/// Copy an optional string.
fn clone_opt_string(s: &Option<String>) -> (r: Option<String>)
    ensures
        r == *s,
{
    match s {
        Some(v) => Some(v.clone()),
        None => None,
    }
}

/// Copy an event.
pub fn clone_event(e: &Event) -> (r: Event)
    ensures
        r == *e,
{
    Event {
        site_id: e.site_id.clone(),
        visitor_id: e.visitor_id.clone(),
        timestamp: e.timestamp,
        event_name: e.event_name.clone(),
        pathname: e.pathname.clone(),
        hostname: clone_opt_string(&e.hostname),
        referrer: clone_opt_string(&e.referrer),
        referrer_source: clone_opt_string(&e.referrer_source),
        utm_source: clone_opt_string(&e.utm_source),
        utm_medium: clone_opt_string(&e.utm_medium),
        utm_campaign: clone_opt_string(&e.utm_campaign),
        utm_content: clone_opt_string(&e.utm_content),
        utm_term: clone_opt_string(&e.utm_term),
        browser: clone_opt_string(&e.browser),
        browser_version: clone_opt_string(&e.browser_version),
        os: clone_opt_string(&e.os),
        os_version: clone_opt_string(&e.os_version),
        device_type: clone_opt_string(&e.device_type),
        screen_size: clone_opt_string(&e.screen_size),
        country_code: clone_opt_string(&e.country_code),
        region: clone_opt_string(&e.region),
        city: clone_opt_string(&e.city),
        props: clone_opt_string(&e.props),
        revenue_milli: e.revenue_milli,
        revenue_currency: clone_opt_string(&e.revenue_currency),
    }
}

/// Whether an event belongs to the site and falls in the date range:
/// `start` inclusive, `end` exclusive, judged by the event's civil date.
pub open spec fn event_in_range(e: Event, site: Seq<char>, start: Date, end: Date) -> bool {
    &&& e.site_id@ == site
    &&& !dates::spec_date_lt(e.timestamp.date, start)
    &&& dates::spec_date_lt(e.timestamp.date, end)
}

/// The events of a site within a date range, in their original order.
pub open spec fn spec_filter_range(s: Seq<Event>, site: Seq<char>, start: Date, end: Date) -> Seq<
    Event,
>
    decreases s.len(),
{
    if s.len() == 0 {
        Seq::empty()
    } else {
        spec_filter_range(s.drop_last(), site, start, end) + (if event_in_range(
            s.last(),
            site,
            start,
            end,
        ) {
            seq![s.last()]
        } else {
            Seq::<Event>::empty()
        })
    }
}

/// Select the events of a site within a date range.
pub fn filter_events(events: &[Event], site_id: &str, start: &Date, end: &Date) -> (r: Vec<Event>)
    ensures
        r@ == spec_filter_range(events@, site_id@, *start, *end),
{
    let mut r: Vec<Event> = Vec::new();
    let mut i: usize = 0;
    while i < events.len()
        invariant
            0 <= i <= events@.len(),
            r@ == spec_filter_range(events@.subrange(0, i as int), site_id@, *start, *end),
        decreases events@.len() - i,
    {
        let e = &events[i];
        let site_chars = text::chars_of(e.site_id.as_str());
        let matches = text::slice_eq_str(site_chars.as_slice(), site_id) && !dates::date_lt(
            &e.timestamp.date,
            start,
        ) && dates::date_lt(&e.timestamp.date, end);
        if matches {
            r.push(clone_event(e));
        }
        i = i + 1;
        proof {
            assert(events@.subrange(0, i as int).drop_last() =~= events@.subrange(0, i - 1));
            assert(events@.subrange(0, i as int).last() == events@[i - 1]);
            assert(r@ =~= spec_filter_range(
                events@.subrange(0, i as int),
                site_id@,
                *start,
                *end,
            ));
        }
    }
    proof {
        assert(events@.subrange(0, events@.len() as int) =~= events@);
    }
    r
}

/// The set of visitor IDs appearing in a sequence of events.
pub open spec fn visitor_set(s: Seq<Event>) -> Set<Seq<char>>
    decreases s.len(),
{
    if s.len() == 0 {
        Set::empty()
    } else {
        visitor_set(s.drop_last()).insert(s.last().visitor_id@)
    }
}

/// The visitor set of any event sequence is finite.
pub proof fn lemma_visitor_set_finite(s: Seq<Event>)
    ensures
        visitor_set(s).finite(),
    decreases s.len(),
{
    if s.len() > 0 {
        lemma_visitor_set_finite(s.drop_last());
    }
}

/// Whether some element of `seen` views as `v`.
fn contains_view(seen: &Vec<String>, v: &str) -> (r: bool)
    ensures
        r == exists|j: int| 0 <= j < seen@.len() && (#[trigger] seen@[j])@ == v@,
{
    let mut i: usize = 0;
    while i < seen.len()
        invariant
            0 <= i <= seen@.len(),
            forall|j: int| 0 <= j < i ==> (#[trigger] seen@[j])@ != v@,
        decreases seen@.len() - i,
    {
        let sc = text::chars_of(seen[i].as_str());
        if text::slice_eq_str(sc.as_slice(), v) {
            return true;
        }
        i = i + 1;
    }
    false
}

/// Count the distinct visitor IDs in a slice of events.
pub fn unique_visitors(events: &[Event]) -> (r: u64)
    ensures
        r == visitor_set(events@).len(),
{
    let mut seen: Vec<String> = Vec::new();
    let mut count: u64 = 0;
    let mut i: usize = 0;
    proof {
        lemma_visitor_set_finite(events@.subrange(0, 0));
        assert(visitor_set(events@.subrange(0, 0)) =~= Set::<Seq<char>>::empty());
    }
    while i < events.len()
        invariant
            0 <= i <= events@.len(),
            count <= i,
            count == visitor_set(events@.subrange(0, i as int)).len(),
            visitor_set(events@.subrange(0, i as int)).finite(),
            forall|v: Seq<char>|
                visitor_set(events@.subrange(0, i as int)).contains(v) <==> exists|j: int|
                    0 <= j < seen@.len() && (#[trigger] seen@[j])@ == v,
        decreases events@.len() - i,
    {
        let v = &events[i].visitor_id;
        let ghost before = visitor_set(events@.subrange(0, i as int));
        let ghost seen_before = seen@;
        let member = contains_view(&seen, v.as_str());
        proof {
            assert(events@.subrange(0, i + 1).drop_last() =~= events@.subrange(0, i as int));
            assert(events@.subrange(0, i + 1).last() == events@[i as int]);
            vstd::set::axiom_set_insert_len(before, v@);
        }
        if !member {
            seen.push(v.clone());
            count = count + 1;
        }
        i = i + 1;
        proof {
            let after = visitor_set(events@.subrange(0, i as int));
            let vid = events@[i - 1].visitor_id@;
            assert(after == before.insert(vid));
            assert forall|w: Seq<char>| after.contains(w) implies exists|j: int|
                0 <= j < seen@.len() && (#[trigger] seen@[j])@ == w by {
                if !member && w == vid {
                    assert(seen@[seen@.len() - 1]@ == w);
                } else {
                    assert(before.contains(w));
                    let j = choose|j: int| 0 <= j < seen_before.len() && (#[trigger] seen_before[j])@
                        == w;
                    assert(seen@[j] == seen_before[j]);
                }
            }
            assert forall|w: Seq<char>| (exists|j: int|
                0 <= j < seen@.len() && (#[trigger] seen@[j])@ == w) implies after.contains(w) by {
                let j = choose|j: int| 0 <= j < seen@.len() && (#[trigger] seen@[j])@ == w;
                if j < seen_before.len() {
                    assert(seen@[j] == seen_before[j]);
                    assert(before.contains(w));
                } else {
                    assert(w == vid);
                }
            }
        }
    }
    proof {
        assert(events@.subrange(0, events@.len() as int) =~= events@);
    }
    count
}

/// The number of pageview events in a sequence.
pub open spec fn count_pageviews(s: Seq<Event>) -> int
    decreases s.len(),
{
    if s.len() == 0 {
        0
    } else {
        count_pageviews(s.drop_last()) + (if s.last().event_name@ == "pageview"@ {
            1int
        } else {
            0
        })
    }
}

/// The pageview count never exceeds the event count.
pub proof fn lemma_count_pageviews_bound(s: Seq<Event>)
    ensures
        0 <= count_pageviews(s) <= s.len(),
    decreases s.len(),
{
    if s.len() > 0 {
        lemma_count_pageviews_bound(s.drop_last());
    }
}

/// Count the events named `pageview` in a slice of events.
pub fn total_pageviews(events: &[Event]) -> (r: u64)
    ensures
        r == count_pageviews(events@),
{
    let mut count: u64 = 0;
    let mut i: usize = 0;
    while i < events.len()
        invariant
            0 <= i <= events@.len(),
            count <= i,
            count == count_pageviews(events@.subrange(0, i as int)),
        decreases events@.len() - i,
    {
        let nc = text::chars_of(events[i].event_name.as_str());
        proof {
            assert(events@.subrange(0, i + 1).drop_last() =~= events@.subrange(0, i as int));
            assert(events@.subrange(0, i + 1).last() == events@[i as int]);
        }
        if text::slice_eq_str(nc.as_slice(), "pageview") {
            count = count + 1;
        }
        i = i + 1;
    }
    proof {
        assert(events@.subrange(0, events@.len() as int) =~= events@);
    }
    count
}

/// The core metric record of a slice of events: distinct visitors, pageview
/// count and the derived pages-per-visit ratio. The bounce rate comes from
/// the sessionised aggregation and is supplied by the caller (zero when
/// unavailable).
pub fn core_metrics_of(events: &[Event], bounce_rate_milli: u64) -> (r: CoreMetrics)
    ensures
        r.unique_visitors == visitor_set(events@).len(),
        r.total_pageviews == count_pageviews(events@),
        r.bounce_rate_milli == bounce_rate_milli,
        r.avg_visit_duration_secs_milli == 0,
        r.pages_per_visit_milli == queries::spec_pages_per_visit_milli(
            (visitor_set(events@).len()) as u64,
            count_pageviews(events@) as u64,
        ),
{
    let uv = unique_visitors(events);
    let pv = total_pageviews(events);
    queries::compute_core_metrics(uv, pv, bounce_rate_milli)
}

/// The time bucket an event falls in: its day, or its day and hour.
pub open spec fn spec_bucket_label(e: Event, g: Granularity) -> Seq<char> {
    match g {
        Granularity::Day => dates::spec_format_date(e.timestamp.date),
        Granularity::Hour => dates::spec_format_date(e.timestamp.date) + seq![' ']
            + text::spec_dec_pad((e.timestamp.secs / 3600) as u64, 2) + ":00"@,
    }
}

/// Render the bucket label of an event.
pub fn bucket_label(e: &Event, g: Granularity) -> (r: String)
    ensures
        r@ == spec_bucket_label(*e, g),
{
    match g {
        Granularity::Day => dates::format_date(&e.timestamp.date),
        Granularity::Hour => {
            let mut chars = text::chars_of(dates::format_date(&e.timestamp.date).as_str());
            chars.push(' ');
            let mut h = dates::pad_dec((e.timestamp.secs / 3600) as u64, 2);
            chars.append(&mut h);
            let mut r = text::string_from_chars(chars.as_slice());
            r.append(":00");
            proof {
                assert(r@ =~= spec_bucket_label(*e, g));
            }
            r
        },
    }
}

/// The set of bucket labels of a sequence of events.
pub open spec fn label_set(s: Seq<Event>, g: Granularity) -> Set<Seq<char>>
    decreases s.len(),
{
    if s.len() == 0 {
        Set::empty()
    } else {
        label_set(s.drop_last(), g).insert(spec_bucket_label(s.last(), g))
    }
}

/// The events falling in the bucket with the given label, in order.
pub open spec fn spec_filter_label(s: Seq<Event>, label: Seq<char>, g: Granularity) -> Seq<Event>
    decreases s.len(),
{
    if s.len() == 0 {
        Seq::empty()
    } else {
        spec_filter_label(s.drop_last(), label, g) + (if spec_bucket_label(s.last(), g) == label {
            seq![s.last()]
        } else {
            Seq::<Event>::empty()
        })
    }
}

/// Select the events of one time bucket.
fn events_with_label(events: &[Event], label: &str, g: Granularity) -> (r: Vec<Event>)
    ensures
        r@ == spec_filter_label(events@, label@, g),
{
    let mut r: Vec<Event> = Vec::new();
    let mut i: usize = 0;
    while i < events.len()
        invariant
            0 <= i <= events@.len(),
            r@ == spec_filter_label(events@.subrange(0, i as int), label@, g),
        decreases events@.len() - i,
    {
        let e = &events[i];
        let lc = text::chars_of(bucket_label(e, g).as_str());
        if text::slice_eq_str(lc.as_slice(), label) {
            r.push(clone_event(e));
        }
        i = i + 1;
        proof {
            assert(events@.subrange(0, i as int).drop_last() =~= events@.subrange(0, i - 1));
            assert(events@.subrange(0, i as int).last() == events@[i - 1]);
            assert(r@ =~= spec_filter_label(events@.subrange(0, i as int), label@, g));
        }
    }
    proof {
        assert(events@.subrange(0, events@.len() as int) =~= events@);
    }
    r
}

/// The bucket labels of the events, strictly ascending and complete.
fn bucket_labels(events: &[Event], g: Granularity) -> (r: Vec<String>)
    ensures
        forall|i: int, j: int|
            0 <= i < j < r@.len() ==> crate::storage::spec_lex_lt(
                (#[trigger] r@[i])@,
                (#[trigger] r@[j])@,
            ),
        forall|v: Seq<char>|
            label_set(events@, g).contains(v) <==> exists|k: int|
                0 <= k < r@.len() && (#[trigger] r@[k])@ == v,
{
    let mut r: Vec<String> = Vec::new();
    let mut n: usize = 0;
    proof {
        assert(label_set(events@.subrange(0, 0), g) =~= Set::<Seq<char>>::empty());
    }
    while n < events.len()
        invariant
            0 <= n <= events@.len(),
            forall|i: int, j: int|
                0 <= i < j < r@.len() ==> crate::storage::spec_lex_lt(
                    (#[trigger] r@[i])@,
                    (#[trigger] r@[j])@,
                ),
            forall|v: Seq<char>|
                label_set(events@.subrange(0, n as int), g).contains(v) <==> exists|k: int|
                    0 <= k < r@.len() && (#[trigger] r@[k])@ == v,
        decreases events@.len() - n,
    {
        let label = bucket_label(&events[n], g);
        let lc = text::chars_of(label.as_str());
        let mut idx: usize = 0;
        loop
            invariant
                0 <= idx <= r@.len(),
                lc@ == label@,
                forall|k: int|
                    0 <= k < idx ==> crate::storage::spec_lex_lt((#[trigger] r@[k])@, label@),
            ensures
                0 <= idx <= r@.len(),
                forall|k: int|
                    0 <= k < idx ==> crate::storage::spec_lex_lt((#[trigger] r@[k])@, label@),
                idx == r@.len() || !crate::storage::spec_lex_lt(r@[idx as int]@, label@),
            decreases r@.len() - idx,
        {
            if idx >= r.len() {
                break ;
            }
            let cur = text::chars_of(r[idx].as_str());
            if !crate::storage::lex_lt(cur.as_slice(), lc.as_slice()) {
                break ;
            }
            idx = idx + 1;
        }
        let present = if idx < r.len() {
            let cur = text::chars_of(r[idx].as_str());
            text::slice_eq_str(cur.as_slice(), label.as_str())
        } else {
            false
        };
        let ghost prev_r = r@;
        if !present {
            proof {
                if idx < prev_r.len() && !crate::storage::spec_lex_lt(label@, prev_r[idx as int]@) {
                    crate::storage::lemma_lex_lt_connex(prev_r[idx as int]@, label@);
                }
            }
            r.insert(idx, label);
            proof {
                assert forall|i: int, j: int| 0 <= i < j < r@.len() implies crate::storage::spec_lex_lt(
                    (#[trigger] r@[i])@,
                    (#[trigger] r@[j])@,
                ) by {
                    let ii = idx as int;
                    if j < ii {
                        assert(r@[i] == prev_r[i] && r@[j] == prev_r[j]);
                    } else if i < ii && j == ii {
                        assert(r@[i] == prev_r[i]);
                    } else if i < ii && j > ii {
                        assert(r@[i] == prev_r[i] && r@[j] == prev_r[j - 1]);
                    } else if i == ii {
                        assert(r@[j] == prev_r[j - 1]);
                        if j - 1 > ii {
                            crate::storage::lemma_lex_lt_trans(
                                r@[i]@,
                                prev_r[ii]@,
                                prev_r[j - 1]@,
                            );
                        }
                    } else {
                        assert(r@[i] == prev_r[i - 1] && r@[j] == prev_r[j - 1]);
                    }
                }
            }
        }
        n = n + 1;
        proof {
            assert(events@.subrange(0, n as int).drop_last() =~= events@.subrange(0, n - 1));
            assert(events@.subrange(0, n as int).last() == events@[n - 1]);
            let after = label_set(events@.subrange(0, n as int), g);
            let lv = spec_bucket_label(events@[n - 1], g);
            assert(after == label_set(events@.subrange(0, n - 1), g).insert(lv));
            assert(lv == label@);
            assert forall|v: Seq<char>| after.contains(v) implies exists|k: int|
                0 <= k < r@.len() && (#[trigger] r@[k])@ == v by {
                if present {
                    if v == lv {
                        assert(r@[idx as int]@ == v);
                    } else {
                        let k = choose|k: int| 0 <= k < prev_r.len() && (#[trigger] prev_r[k])@
                            == v;
                        assert(r@[k]@ == v);
                    }
                } else {
                    if v == lv {
                        assert(r@[idx as int]@ == v);
                    } else {
                        let k = choose|k: int| 0 <= k < prev_r.len() && (#[trigger] prev_r[k])@
                            == v;
                        if k < idx as int {
                            assert(r@[k] == prev_r[k]);
                        } else {
                            assert(r@[k + 1] == prev_r[k]);
                        }
                    }
                }
            }
            assert forall|v: Seq<char>| (exists|k: int|
                0 <= k < r@.len() && (#[trigger] r@[k])@ == v) implies after.contains(v) by {
                let k = choose|k: int| 0 <= k < r@.len() && (#[trigger] r@[k])@ == v;
                if present {
                    assert(prev_r[k]@ == v);
                } else {
                    if k == idx as int {
                        assert(v == label@);
                    } else if k < idx as int {
                        assert(prev_r[k]@ == v);
                    } else {
                        assert(prev_r[k - 1]@ == v);
                    }
                }
            }
        }
    }
    proof {
        assert(events@.subrange(0, events@.len() as int) =~= events@);
    }
    r
}

/// The time series of a slice of events: one bucket per occupied label, in
/// strictly ascending label order, each carrying its exact distinct-visitor
/// and pageview counts.
pub fn timeseries(events: &[Event], granularity: Granularity) -> (r: Vec<TimeBucket>)
    ensures
        forall|i: int, j: int|
            0 <= i < j < r@.len() ==> crate::storage::spec_lex_lt(
                (#[trigger] r@[i]).date@,
                (#[trigger] r@[j]).date@,
            ),
        forall|i: int|
            0 <= i < r@.len() ==> {
                let evs = spec_filter_label(events@, (#[trigger] r@[i]).date@, granularity);
                &&& r@[i].visitors == visitor_set(evs).len()
                &&& r@[i].pageviews == count_pageviews(evs)
            },
        forall|v: Seq<char>|
            label_set(events@, granularity).contains(v) <==> exists|i: int|
                0 <= i < r@.len() && (#[trigger] r@[i]).date@ == v,
{
    let labels = bucket_labels(events, granularity);
    let mut r: Vec<TimeBucket> = Vec::new();
    let mut i: usize = 0;
    while i < labels.len()
        invariant
            0 <= i <= labels@.len(),
            r@.len() == i,
            forall|k: int| 0 <= k < i ==> (#[trigger] r@[k]).date@ == labels@[k]@,
            forall|k: int|
                0 <= k < i ==> {
                    let evs = spec_filter_label(events@, (#[trigger] r@[k]).date@, granularity);
                    &&& r@[k].visitors == visitor_set(evs).len()
                    &&& r@[k].pageviews == count_pageviews(evs)
                },
            forall|a: int, b: int|
                0 <= a < b < labels@.len() ==> crate::storage::spec_lex_lt(
                    (#[trigger] labels@[a])@,
                    (#[trigger] labels@[b])@,
                ),
            forall|v: Seq<char>|
                label_set(events@, granularity).contains(v) <==> exists|k: int|
                    0 <= k < labels@.len() && (#[trigger] labels@[k])@ == v,
        decreases labels@.len() - i,
    {
        let evs = events_with_label(events, labels[i].as_str(), granularity);
        let visitors = unique_visitors(evs.as_slice());
        let pageviews = total_pageviews(evs.as_slice());
        let date = labels[i].clone();
        r.push(TimeBucket { date, visitors, pageviews });
        i = i + 1;
    }
    proof {
        assert forall|v: Seq<char>| label_set(events@, granularity).contains(v) implies exists|
            k: int,
        | 0 <= k < r@.len() && (#[trigger] r@[k]).date@ == v by {
            let k = choose|k: int| 0 <= k < labels@.len() && (#[trigger] labels@[k])@ == v;
            assert(r@[k].date@ == v);
        }
        assert forall|v: Seq<char>| (exists|k: int|
            0 <= k < r@.len() && (#[trigger] r@[k]).date@ == v) implies label_set(
            events@,
            granularity,
        ).contains(v) by {
            let k = choose|k: int| 0 <= k < r@.len() && (#[trigger] r@[k]).date@ == v;
            assert(labels@[k]@ == v);
        }
    }
    r
}

/// The breakdown value of an event along a dimension; an absent value
/// folds to `(unknown)`, as the aggregation statement's COALESCE does.
pub open spec fn spec_dim_value(e: Event, d: Dimension) -> Seq<char> {
    match d {
        Dimension::Page => e.pathname@,
        Dimension::ReferrerSource => spec_opt_or_unknown(e.referrer_source),
        Dimension::CountryCode => spec_opt_or_unknown(e.country_code),
        Dimension::Browser => spec_opt_or_unknown(e.browser),
        Dimension::Os => spec_opt_or_unknown(e.os),
        Dimension::DeviceType => spec_opt_or_unknown(e.device_type),
    }
}

/// An optional string, or `(unknown)` when absent.
pub open spec fn spec_opt_or_unknown(o: Option<String>) -> Seq<char> {
    match o {
        Some(s) => s@,
        None => "(unknown)"@,
    }
}

/// Render an optional string, or `(unknown)` when absent.
fn opt_or_unknown(o: &Option<String>) -> (r: String)
    ensures
        r@ == spec_opt_or_unknown(*o),
{
    match o {
        Some(s) => s.clone(),
        None => String::from_str("(unknown)"),
    }
}

/// Render the breakdown value of an event.
fn dim_value(e: &Event, d: Dimension) -> (r: String)
    ensures
        r@ == spec_dim_value(*e, d),
{
    match d {
        Dimension::Page => e.pathname.clone(),
        Dimension::ReferrerSource => opt_or_unknown(&e.referrer_source),
        Dimension::CountryCode => opt_or_unknown(&e.country_code),
        Dimension::Browser => opt_or_unknown(&e.browser),
        Dimension::Os => opt_or_unknown(&e.os),
        Dimension::DeviceType => opt_or_unknown(&e.device_type),
    }
}

/// The set of breakdown values of a sequence of events.
pub open spec fn value_set(s: Seq<Event>, d: Dimension) -> Set<Seq<char>>
    decreases s.len(),
{
    if s.len() == 0 {
        Set::empty()
    } else {
        value_set(s.drop_last(), d).insert(spec_dim_value(s.last(), d))
    }
}

/// The value set of any event sequence is finite.
pub proof fn lemma_value_set_finite(s: Seq<Event>, d: Dimension)
    ensures
        value_set(s, d).finite(),
    decreases s.len(),
{
    if s.len() > 0 {
        lemma_value_set_finite(s.drop_last(), d);
    }
}

/// The events carrying a given breakdown value, in order.
pub open spec fn spec_filter_value(s: Seq<Event>, v: Seq<char>, d: Dimension) -> Seq<Event>
    decreases s.len(),
{
    if s.len() == 0 {
        Seq::empty()
    } else {
        spec_filter_value(s.drop_last(), v, d) + (if spec_dim_value(s.last(), d) == v {
            seq![s.last()]
        } else {
            Seq::<Event>::empty()
        })
    }
}

/// Select the events carrying one breakdown value.
fn events_with_value(events: &[Event], value: &str, d: Dimension) -> (r: Vec<Event>)
    ensures
        r@ == spec_filter_value(events@, value@, d),
{
    let mut r: Vec<Event> = Vec::new();
    let mut i: usize = 0;
    while i < events.len()
        invariant
            0 <= i <= events@.len(),
            r@ == spec_filter_value(events@.subrange(0, i as int), value@, d),
        decreases events@.len() - i,
    {
        let e = &events[i];
        let vc = text::chars_of(dim_value(e, d).as_str());
        if text::slice_eq_str(vc.as_slice(), value) {
            r.push(clone_event(e));
        }
        i = i + 1;
        proof {
            assert(events@.subrange(0, i as int).drop_last() =~= events@.subrange(0, i - 1));
            assert(events@.subrange(0, i as int).last() == events@[i - 1]);
            assert(r@ =~= spec_filter_value(events@.subrange(0, i as int), value@, d));
        }
    }
    proof {
        assert(events@.subrange(0, events@.len() as int) =~= events@);
    }
    r
}

/// The distinct breakdown values of the events, with the set's cardinality.
fn distinct_values(events: &[Event], d: Dimension) -> (r: Vec<String>)
    ensures
        r@.len() == value_set(events@, d).len(),
        forall|i: int, j: int| 0 <= i < j < r@.len() ==> (#[trigger] r@[i])@ != (#[trigger] r@[j])@,
        forall|v: Seq<char>|
            value_set(events@, d).contains(v) <==> exists|k: int|
                0 <= k < r@.len() && (#[trigger] r@[k])@ == v,
{
    let mut vals: Vec<String> = Vec::new();
    let mut i: usize = 0;
    proof {
        lemma_value_set_finite(events@.subrange(0, 0), d);
        assert(value_set(events@.subrange(0, 0), d) =~= Set::<Seq<char>>::empty());
    }
    while i < events.len()
        invariant
            0 <= i <= events@.len(),
            value_set(events@.subrange(0, i as int), d).finite(),
            vals@.len() == value_set(events@.subrange(0, i as int), d).len(),
            forall|a: int, b: int|
                0 <= a < b < vals@.len() ==> (#[trigger] vals@[a])@ != (#[trigger] vals@[b])@,
            forall|v: Seq<char>|
                value_set(events@.subrange(0, i as int), d).contains(v) <==> exists|k: int|
                    0 <= k < vals@.len() && (#[trigger] vals@[k])@ == v,
        decreases events@.len() - i,
    {
        let v = dim_value(&events[i], d);
        let ghost before = value_set(events@.subrange(0, i as int), d);
        let ghost vals_before = vals@;
        let member = contains_view(&vals, v.as_str());
        proof {
            assert(events@.subrange(0, i + 1).drop_last() =~= events@.subrange(0, i as int));
            assert(events@.subrange(0, i + 1).last() == events@[i as int]);
            vstd::set::axiom_set_insert_len(before, v@);
        }
        if !member {
            vals.push(v);
        }
        i = i + 1;
        proof {
            let after = value_set(events@.subrange(0, i as int), d);
            let dv = spec_dim_value(events@[i - 1], d);
            assert(after == before.insert(dv));
            assert(dv == (if member {
                dv
            } else {
                vals@[vals@.len() - 1]@
            }));
            assert forall|w: Seq<char>| after.contains(w) implies exists|k: int|
                0 <= k < vals@.len() && (#[trigger] vals@[k])@ == w by {
                if !member && w == dv {
                    assert(vals@[vals@.len() - 1]@ == w);
                } else {
                    assert(before.contains(w));
                    let k = choose|k: int| 0 <= k < vals_before.len() && (
                    #[trigger] vals_before[k])@ == w;
                    assert(vals@[k] == vals_before[k]);
                }
            }
            assert forall|w: Seq<char>| (exists|k: int|
                0 <= k < vals@.len() && (#[trigger] vals@[k])@ == w) implies after.contains(w) by {
                let k = choose|k: int| 0 <= k < vals@.len() && (#[trigger] vals@[k])@ == w;
                if k < vals_before.len() {
                    assert(vals@[k] == vals_before[k]);
                    assert(before.contains(w));
                } else {
                    assert(w == dv);
                }
            }
        }
    }
    proof {
        assert(events@.subrange(0, events@.len() as int) =~= events@);
    }
    vals
}

/// Whether a breakdown row carries the exact counts of its value within
/// `events`.
pub open spec fn row_counts_ok(row: BreakdownRow, events: Seq<Event>, d: Dimension) -> bool {
    &&& row.visitors == visitor_set(spec_filter_value(events, row.value@, d)).len()
    &&& row.pageviews == count_pageviews(spec_filter_value(events, row.value@, d))
}

/// The breakdown of a slice of events along a dimension: one row per
/// distinct value with its exact counts, ordered by visitors descending,
/// truncated to `limit` rows. Any value that did not make the cut has no
/// more visitors than any row that did.
pub fn breakdown(events: &[Event], dimension: Dimension, limit: usize) -> (r: Vec<BreakdownRow>)
    ensures
        forall|i: int, j: int|
            0 <= i < j < r@.len() ==> (#[trigger] r@[i]).visitors >= (#[trigger] r@[j]).visitors,
        forall|i: int| 0 <= i < r@.len() ==> row_counts_ok(#[trigger] r@[i], events@, dimension),
        forall|i: int|
            0 <= i < r@.len() ==> value_set(events@, dimension).contains((#[trigger] r@[i]).value@),
        forall|i: int, j: int|
            0 <= i < j < r@.len() ==> (#[trigger] r@[i]).value@ != (#[trigger] r@[j]).value@,
        r@.len() == vstd::math::min(limit as int, value_set(events@, dimension).len() as int),
        forall|v: Seq<char>|
            value_set(events@, dimension).contains(v) && !(exists|i: int|
                0 <= i < r@.len() && (#[trigger] r@[i]).value@ == v) ==> (r@.len() == limit
                && forall|i: int|
                0 <= i < r@.len() ==> visitor_set(spec_filter_value(events@, v, dimension)).len()
                    <= (#[trigger] r@[i]).visitors),
{
    let vals = distinct_values(events, dimension);
    let ghost vset = value_set(events@, dimension);
    let mut rows: Vec<BreakdownRow> = Vec::new();
    let mut i: usize = 0;
    while i < vals.len()
        invariant
            0 <= i <= vals@.len(),
            rows@.len() == i,
            forall|k: int| 0 <= k < i ==> (#[trigger] rows@[k]).value@ == vals@[k]@,
            forall|k: int| 0 <= k < i ==> row_counts_ok(#[trigger] rows@[k], events@, dimension),
            forall|a: int, b: int|
                0 <= a < b < vals@.len() ==> (#[trigger] vals@[a])@ != (#[trigger] vals@[b])@,
        decreases vals@.len() - i,
    {
        let evs = events_with_value(events, vals[i].as_str(), dimension);
        let visitors = unique_visitors(evs.as_slice());
        let pageviews = total_pageviews(evs.as_slice());
        let value = vals[i].clone();
        rows.push(BreakdownRow { value, visitors, pageviews });
        i = i + 1;
    }
    // Sort descending by visitors.
    proof {
        assert forall|v: Seq<char>| vset.contains(v) implies exists|k: int|
            0 <= k < rows@.len() && (#[trigger] rows@[k]).value@ == v by {
            let k = choose|k: int| 0 <= k < vals@.len() && (#[trigger] vals@[k])@ == v;
            assert(rows@[k].value@ == v);
        }
        assert forall|v: Seq<char>| (exists|k: int|
            0 <= k < rows@.len() && (#[trigger] rows@[k]).value@ == v) implies vset.contains(
            v,
        ) by {
            let k = choose|k: int| 0 <= k < rows@.len() && (#[trigger] rows@[k]).value@ == v;
            assert(vals@[k]@ == v);
        }
        assert forall|a: int, b: int| 0 <= a < b < rows@.len() implies (
        #[trigger] rows@[a]).value@ != (#[trigger] rows@[b]).value@ by {
            assert(vals@[a]@ != vals@[b]@);
        }
    }
    let mut sorted: Vec<BreakdownRow> = Vec::new();
    loop
        invariant
            sorted@.len() + rows@.len() == vals@.len(),
            forall|a: int, b: int|
                0 <= a < b < sorted@.len() ==> (#[trigger] sorted@[a]).visitors >= (
                #[trigger] sorted@[b]).visitors,
            forall|k: int|
                0 <= k < sorted@.len() ==> row_counts_ok(#[trigger] sorted@[k], events@, dimension),
            forall|k: int|
                0 <= k < rows@.len() ==> row_counts_ok(#[trigger] rows@[k], events@, dimension),
            forall|k: int| 0 <= k < sorted@.len() ==> vset.contains((#[trigger] sorted@[k]).value@),
            forall|k: int| 0 <= k < rows@.len() ==> vset.contains((#[trigger] rows@[k]).value@),
            forall|a: int, b: int|
                0 <= a < b < sorted@.len() ==> (#[trigger] sorted@[a]).value@ != (
                #[trigger] sorted@[b]).value@,
            forall|a: int, b: int|
                0 <= a < b < rows@.len() ==> (#[trigger] rows@[a]).value@ != (
                #[trigger] rows@[b]).value@,
            forall|a: int, b: int|
                0 <= a < sorted@.len() && 0 <= b < rows@.len() ==> (#[trigger] sorted@[a]).value@
                    != (#[trigger] rows@[b]).value@,
            forall|v: Seq<char>|
                vset.contains(v) <==> ((exists|k: int|
                    0 <= k < sorted@.len() && (#[trigger] sorted@[k]).value@ == v) || (exists|
                    k: int,
                |
                    0 <= k < rows@.len() && (#[trigger] rows@[k]).value@ == v)),
        ensures
            rows@.len() == 0,
            sorted@.len() == vals@.len(),
            forall|a: int, b: int|
                0 <= a < b < sorted@.len() ==> (#[trigger] sorted@[a]).visitors >= (
                #[trigger] sorted@[b]).visitors,
            forall|k: int|
                0 <= k < sorted@.len() ==> row_counts_ok(#[trigger] sorted@[k], events@, dimension),
            forall|k: int| 0 <= k < sorted@.len() ==> vset.contains((#[trigger] sorted@[k]).value@),
            forall|a: int, b: int|
                0 <= a < b < sorted@.len() ==> (#[trigger] sorted@[a]).value@ != (
                #[trigger] sorted@[b]).value@,
            forall|v: Seq<char>|
                vset.contains(v) <==> exists|k: int|
                    0 <= k < sorted@.len() && (#[trigger] sorted@[k]).value@ == v,
        decreases rows@.len(),
    {
        if rows.len() == 0 {
            break ;
        }
        let ghost rows_before = rows@;
        let row = rows.remove(0);
        proof {
            assert(rows@ =~= rows_before.drop_first());
        }
        let mut idx: usize = 0;
        loop
            invariant
                0 <= idx <= sorted@.len(),
                forall|k: int|
                    0 <= k < idx ==> (#[trigger] sorted@[k]).visitors >= row.visitors,
            ensures
                0 <= idx <= sorted@.len(),
                forall|k: int|
                    0 <= k < idx ==> (#[trigger] sorted@[k]).visitors >= row.visitors,
                idx == sorted@.len() || sorted@[idx as int].visitors < row.visitors,
            decreases sorted@.len() - idx,
        {
            if idx >= sorted.len() {
                break ;
            }
            if sorted[idx].visitors < row.visitors {
                break ;
            }
            idx = idx + 1;
        }
        let ghost sorted_before = sorted@;
        let ghost grow = row;
        sorted.insert(idx, row);
        proof {
            assert(sorted@ =~= sorted_before.insert(idx as int, grow));
            assert forall|a: int, b: int| 0 <= a < b < sorted@.len() implies (
            #[trigger] sorted@[a]).visitors >= (#[trigger] sorted@[b]).visitors by {
                let ii = idx as int;
                if b < ii {
                    assert(sorted@[a] == sorted_before[a] && sorted@[b] == sorted_before[b]);
                } else if a < ii && b == ii {
                    assert(sorted@[a] == sorted_before[a]);
                } else if a < ii && b > ii {
                    assert(sorted@[a] == sorted_before[a] && sorted@[b] == sorted_before[b - 1]);
                } else if a == ii {
                    assert(sorted@[b] == sorted_before[b - 1]);
                } else {
                    assert(sorted@[a] == sorted_before[a - 1] && sorted@[b] == sorted_before[b
                        - 1]);
                }
            }
            assert forall|v: Seq<char>| vset.contains(v) implies ((exists|k: int|
                0 <= k < sorted@.len() && (#[trigger] sorted@[k]).value@ == v) || (exists|k: int|
                0 <= k < rows@.len() && (#[trigger] rows@[k]).value@ == v)) by {
                if exists|k: int| 0 <= k < sorted_before.len() && (#[trigger] sorted_before[k]).value@
                    == v {
                    let k = choose|k: int|
                        0 <= k < sorted_before.len() && (#[trigger] sorted_before[k]).value@ == v;
                    if k < idx as int {
                        assert(sorted@[k].value@ == v);
                    } else {
                        assert(sorted@[k + 1].value@ == v);
                    }
                } else if exists|k: int|
                    0 <= k < rows_before.len() && (#[trigger] rows_before[k]).value@ == v {
                    let k = choose|k: int|
                        0 <= k < rows_before.len() && (#[trigger] rows_before[k]).value@ == v;
                    if k == 0 {
                        assert(sorted@[idx as int].value@ == v);
                    } else {
                        assert(rows@[k - 1].value@ == v);
                    }
                }
            }
            assert forall|v: Seq<char>| ((exists|k: int|
                0 <= k < sorted@.len() && (#[trigger] sorted@[k]).value@ == v) || (exists|k: int|
                0 <= k < rows@.len() && (#[trigger] rows@[k]).value@ == v)) implies vset.contains(
                v,
            ) by {
                if exists|k: int| 0 <= k < sorted@.len() && (#[trigger] sorted@[k]).value@ == v {
                    let k = choose|k: int|
                        0 <= k < sorted@.len() && (#[trigger] sorted@[k]).value@ == v;
                    if k == idx as int {
                        assert(rows_before[0].value@ == v);
                    } else if k < idx as int {
                        assert(sorted_before[k].value@ == v);
                    } else {
                        assert(sorted_before[k - 1].value@ == v);
                    }
                } else {
                    let k = choose|k: int|
                        0 <= k < rows@.len() && (#[trigger] rows@[k]).value@ == v;
                    assert(rows_before[k + 1].value@ == v);
                }
            }
        }
    }
    // Truncate to the requested limit.
    let ghost full = sorted@;
    if sorted.len() > limit {
        sorted.truncate(limit);
        proof {
            assert(sorted@ =~= full.subrange(0, limit as int));
        }
    }
    proof {
        assert forall|v: Seq<char>|
            vset.contains(v) && !(exists|i: int|
                0 <= i < sorted@.len() && (#[trigger] sorted@[i]).value@ == v) implies (
        sorted@.len() == limit && forall|i: int|
            0 <= i < sorted@.len() ==> visitor_set(spec_filter_value(events@, v, dimension)).len()
                <= (#[trigger] sorted@[i]).visitors) by {
            let j = choose|j: int| 0 <= j < full.len() && (#[trigger] full[j]).value@ == v;
            if full.len() <= limit {
                assert(sorted@[j].value@ == v);
            } else {
                assert(sorted@ =~= full.subrange(0, limit as int));
                if j < limit {
                    assert(sorted@[j].value@ == v);
                }
                assert(j >= limit);
                assert(sorted@.len() == limit);
                assert(row_counts_ok(full[j], events@, dimension));
                assert forall|i: int| 0 <= i < sorted@.len() implies visitor_set(
                    spec_filter_value(events@, v, dimension),
                ).len() <= (#[trigger] sorted@[i]).visitors by {
                    assert(sorted@[i] == full[i]);
                    assert(full[i].visitors >= full[j].visitors);
                }
            }
        }
    }
    sorted
}

} // verus!
