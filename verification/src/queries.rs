//! The query layer's data shapes and SQL text: breakdown dimensions, time
//! granularities, the aggregation statements over the two-tier union view,
//! the behavioural sequence statements, and the metric arithmetic.

use vstd::prelude::*;
use crate::text;

verus! {

/// A breakdown row: dimension value with visitor and pageview counts.
#[derive(Debug)]
pub struct BreakdownRow {
    pub value: String,
    pub visitors: u64,
    pub pageviews: u64,
}

/// The dimensions a breakdown may group by.
#[derive(Debug, Clone, Copy, PartialEq, Eq, Structural)]
pub enum Dimension {
    Page,
    ReferrerSource,
    CountryCode,
    Browser,
    Os,
    DeviceType,
}

impl Dimension {
    /// The column this dimension groups by.
    pub fn column_name(self) -> (r: &'static str)
        ensures
            r@ == match self {
                Dimension::Page => "pathname"@,
                Dimension::ReferrerSource => "referrer_source"@,
                Dimension::CountryCode => "country_code"@,
                Dimension::Browser => "browser"@,
                Dimension::Os => "os"@,
                Dimension::DeviceType => "device_type"@,
            },
    {
        match self {
            Dimension::Page => "pathname",
            Dimension::ReferrerSource => "referrer_source",
            Dimension::CountryCode => "country_code",
            Dimension::Browser => "browser",
            Dimension::Os => "os",
            Dimension::DeviceType => "device_type",
        }
    }
}

/// A single time bucket with visitor and pageview counts.
#[derive(Debug)]
pub struct TimeBucket {
    pub date: String,
    pub visitors: u64,
    pub pageviews: u64,
}

/// Time granularity for bucketing.
#[derive(Debug, Clone, Copy, PartialEq, Eq, Structural)]
pub enum Granularity {
    Hour,
    Day,
}

impl Granularity {
    /// The truncation unit this granularity buckets by.
    pub fn trunc_unit(self) -> (r: &'static str)
        ensures
            r@ == match self {
                Granularity::Hour => "hour"@,
                Granularity::Day => "day"@,
            },
    {
        match self {
            Granularity::Hour => "hour",
            Granularity::Day => "day",
        }
    }

    /// The label format of this granularity's buckets.
    pub fn format_str(self) -> (r: &'static str)
        ensures
            r@ == match self {
                Granularity::Hour => "%Y-%m-%d %H:00"@,
                Granularity::Day => "%Y-%m-%d"@,
            },
    {
        match self {
            Granularity::Hour => "%Y-%m-%d %H:00",
            Granularity::Day => "%Y-%m-%d",
        }
    }
}

/// Core metrics over a date range. Ratios are carried in thousandths: a
/// `bounce_rate_milli` of 500 is a bounce rate of one half, a
/// `pages_per_visit_milli` of 1500 is one and a half pages per visit.
#[derive(Debug, Clone, Copy, PartialEq, Eq, Structural)]
pub struct CoreMetrics {
    pub unique_visitors: u64,
    pub total_pageviews: u64,
    pub bounce_rate_milli: u64,
    pub avg_visit_duration_secs_milli: u64,
    pub pages_per_visit_milli: u64,
}

/// Pages per visit in thousandths: `pageviews * 1000 / visitors`, zero for
/// no visitors, saturating on overflow.
pub open spec fn spec_pages_per_visit_milli(visitors: u64, pageviews: u64) -> u64 {
    if visitors == 0 {
        0
    } else if pageviews * 1000 > u64::MAX {
        (u64::MAX as int / visitors as int) as u64
    } else {
        ((pageviews * 1000) as int / visitors as int) as u64
    }
}

/// Combine the raw counts into the core metric record. Bounce rate comes
/// from the sessionised query and is zero when that query is unavailable.
pub fn compute_core_metrics(unique_visitors: u64, total_pageviews: u64, bounce_rate_milli: u64) -> (r:
    CoreMetrics)
    ensures
        r.unique_visitors == unique_visitors,
        r.total_pageviews == total_pageviews,
        r.bounce_rate_milli == bounce_rate_milli,
        r.avg_visit_duration_secs_milli == 0,
        r.pages_per_visit_milli == spec_pages_per_visit_milli(unique_visitors, total_pageviews),
    {
    let pages_per_visit_milli: u64 = if unique_visitors == 0 {
        0
    } else if total_pageviews > u64::MAX / 1000 {
        u64::MAX / unique_visitors
    } else {
        proof {
            assert(total_pageviews * 1000 <= (u64::MAX / 1000) * 1000);
        }
        (total_pageviews * 1000) / unique_visitors
    };
    CoreMetrics {
        unique_visitors,
        total_pageviews,
        bounce_rate_milli,
        avg_visit_duration_secs_milli: 0,
        pages_per_visit_milli,
    }
}

/// `parts` joined by `sep`.
pub open spec fn spec_join(parts: Seq<Seq<char>>, sep: Seq<char>) -> Seq<char>
    decreases parts.len(),
{
    if parts.len() == 0 {
        Seq::empty()
    } else if parts.len() == 1 {
        parts[0]
    } else {
        spec_join(parts.drop_last(), sep) + sep + parts.last()
    }
}

/// Join string slices with a separator.
pub fn join_strs(parts: &[&str], sep: &str) -> (r: String)
    ensures
        r@ == spec_join(parts.deep_view(), sep@),
{
    let mut r = String::new();
    let mut i: usize = 0;
    while i < parts.len()
        invariant
            0 <= i <= parts@.len(),
            r@ == spec_join(parts.deep_view().take(i as int), sep@),
        decreases parts@.len() - i,
    {
        if i > 0 {
            r.append(sep);
        }
        r.append(parts[i]);
        proof {
            assert(parts.deep_view().take(i + 1).drop_last() =~= parts.deep_view().take(i as int));
            assert(parts.deep_view().take(i + 1).last() == parts.deep_view()[i as int]);
            assert(parts.deep_view()[i as int] == parts@[i as int]@);
        }
        i = i + 1;
    }
    proof {
        assert(parts.deep_view().take(parts.deep_view().len() as int) =~= parts.deep_view());
    }
    r
}

/// The breakdown statement: rows grouped by the dimension's column over
/// the union view, unknowns folded to `(unknown)`, ordered by visitors.
pub open spec fn spec_breakdown_sql(col: Seq<char>) -> Seq<char> {
    "SELECT COALESCE("@ + col
        + ", '(unknown)') AS dim_value, COUNT(DISTINCT visitor_id) AS visitors, COUNT(*) FILTER (WHERE event_name = 'pageview') AS pageviews FROM events_all WHERE site_id = ? AND timestamp >= CAST(? AS TIMESTAMP) AND timestamp < CAST(? AS TIMESTAMP) GROUP BY dim_value ORDER BY visitors DESC LIMIT ?"@
}

/// Build the breakdown statement for a dimension.
pub fn breakdown_sql(dimension: Dimension) -> (r: String)
    ensures
        r@ == spec_breakdown_sql(
            match dimension {
                Dimension::Page => "pathname"@,
                Dimension::ReferrerSource => "referrer_source"@,
                Dimension::CountryCode => "country_code"@,
                Dimension::Browser => "browser"@,
                Dimension::Os => "os"@,
                Dimension::DeviceType => "device_type"@,
            },
        ),
{
    let mut r = String::from_str("SELECT COALESCE(");
    r.append(dimension.column_name());
    r.append(
        ", '(unknown)') AS dim_value, COUNT(DISTINCT visitor_id) AS visitors, COUNT(*) FILTER (WHERE event_name = 'pageview') AS pageviews FROM events_all WHERE site_id = ? AND timestamp >= CAST(? AS TIMESTAMP) AND timestamp < CAST(? AS TIMESTAMP) GROUP BY dim_value ORDER BY visitors DESC LIMIT ?",
    );
    r
}

/// The time-series statement for a granularity.
pub open spec fn spec_timeseries_sql(trunc: Seq<char>, fmt: Seq<char>) -> Seq<char> {
    "SELECT strftime(DATE_TRUNC('"@ + trunc + "', timestamp), '"@ + fmt
        + "') AS bucket, COUNT(DISTINCT visitor_id) AS visitors, COUNT(*) FILTER (WHERE event_name = 'pageview') AS pageviews FROM events WHERE site_id = ? AND timestamp >= CAST(? AS TIMESTAMP) AND timestamp < CAST(? AS TIMESTAMP) GROUP BY bucket ORDER BY bucket"@
}

/// Build the time-series statement for a granularity.
pub fn timeseries_sql(granularity: Granularity) -> (r: String)
    ensures
        r@ == spec_timeseries_sql(
            match granularity {
                Granularity::Hour => "hour"@,
                Granularity::Day => "day"@,
            },
            match granularity {
                Granularity::Hour => "%Y-%m-%d %H:00"@,
                Granularity::Day => "%Y-%m-%d"@,
            },
        ),
{
    let mut r = String::from_str("SELECT strftime(DATE_TRUNC('");
    r.append(granularity.trunc_unit());
    r.append("', timestamp), '");
    r.append(granularity.format_str());
    r.append(
        "') AS bucket, COUNT(DISTINCT visitor_id) AS visitors, COUNT(*) FILTER (WHERE event_name = 'pageview') AS pageviews FROM events WHERE site_id = ? AND timestamp >= CAST(? AS TIMESTAMP) AND timestamp < CAST(? AS TIMESTAMP) GROUP BY bucket ORDER BY bucket",
    );
    r
}

/// The funnel statement: visitors bucketed by how many of the step
/// conditions they reached within the window.
pub open spec fn spec_funnel_sql(window: Seq<char>, steps: Seq<Seq<char>>) -> Seq<char> {
    "SELECT steps, COUNT(*) AS visitors FROM ( SELECT visitor_id, window_funnel(INTERVAL '"@
        + window + "', timestamp, "@ + spec_join(steps, ", "@)
        + ") AS steps FROM events WHERE site_id = ? AND timestamp >= CAST(? AS TIMESTAMP) AND timestamp < CAST(? AS TIMESTAMP) GROUP BY visitor_id ) GROUP BY steps ORDER BY steps"@
}

/// Build the funnel statement for a window and step conditions.
pub fn funnel_sql(window: &str, steps: &[&str]) -> (r: String)
    ensures
        r@ == spec_funnel_sql(window@, steps.deep_view()),
{
    let mut r = String::from_str(
        "SELECT steps, COUNT(*) AS visitors FROM ( SELECT visitor_id, window_funnel(INTERVAL '",
    );
    r.append(window);
    r.append("', timestamp, ");
    r.append(join_strs(steps, ", ").as_str());
    r.append(
        ") AS steps FROM events WHERE site_id = ? AND timestamp >= CAST(? AS TIMESTAMP) AND timestamp < CAST(? AS TIMESTAMP) GROUP BY visitor_id ) GROUP BY steps ORDER BY steps",
    );
    r
}

/// The sequence-match statement: how many visitors matched the pattern over
/// the numbered conditions, out of all visitors in range.
pub open spec fn spec_sequence_match_sql(pattern: Seq<char>, conds: Seq<Seq<char>>) -> Seq<char> {
    "SELECT COUNT(*) FILTER (WHERE matched) AS converting_visitors, COUNT(*) AS total_visitors, COALESCE(COUNT(*) FILTER (WHERE matched)::FLOAT / NULLIF(COUNT(*), 0), 0) AS conversion_rate FROM ( SELECT visitor_id, sequence_match('"@
        + pattern + "', timestamp, "@ + spec_join(conds, ", "@)
        + ") AS matched FROM events WHERE site_id = ? AND timestamp >= CAST(? AS TIMESTAMP) AND timestamp < CAST(? AS TIMESTAMP) GROUP BY visitor_id )"@
}

/// Build the sequence-match statement for a pattern and its numbered
/// conditions.
pub fn build_sequence_match_sql(pattern: &str, conditions: &[&str]) -> (r: String)
    ensures
        r@ == spec_sequence_match_sql(pattern@, conditions.deep_view()),
{
    let mut r = String::from_str(
        "SELECT COUNT(*) FILTER (WHERE matched) AS converting_visitors, COUNT(*) AS total_visitors, COALESCE(COUNT(*) FILTER (WHERE matched)::FLOAT / NULLIF(COUNT(*), 0), 0) AS conversion_rate FROM ( SELECT visitor_id, sequence_match('",
    );
    r.append(pattern);
    r.append("', timestamp, ");
    r.append(join_strs(conditions, ", ").as_str());
    r.append(
        ") AS matched FROM events WHERE site_id = ? AND timestamp >= CAST(? AS TIMESTAMP) AND timestamp < CAST(? AS TIMESTAMP) GROUP BY visitor_id )",
    );
    r
}

/// The sequence-count statement: per visitor, how often the pattern
/// occurred.
pub open spec fn spec_sequence_count_sql(pattern: Seq<char>, conds: Seq<Seq<char>>) -> Seq<char> {
    "SELECT visitor_id, sequence_count('"@ + pattern + "', timestamp, "@ + spec_join(conds, ", "@)
        + ") AS match_count FROM events WHERE site_id = ? AND timestamp >= CAST(? AS TIMESTAMP) AND timestamp < CAST(? AS TIMESTAMP) GROUP BY visitor_id ORDER BY match_count DESC"@
}

/// Build the sequence-count statement for a pattern and its numbered
/// conditions.
pub fn build_sequence_count_sql(pattern: &str, conditions: &[&str]) -> (r: String)
    ensures
        r@ == spec_sequence_count_sql(pattern@, conditions.deep_view()),
{
    let mut r = String::from_str("SELECT visitor_id, sequence_count('");
    r.append(pattern);
    r.append("', timestamp, ");
    r.append(join_strs(conditions, ", ").as_str());
    r.append(
        ") AS match_count FROM events WHERE site_id = ? AND timestamp >= CAST(? AS TIMESTAMP) AND timestamp < CAST(? AS TIMESTAMP) GROUP BY visitor_id ORDER BY match_count DESC",
    );
    r
}

/// The flow statement: the ten most common next pages after the target
/// page, which is single-quote escaped before interpolation.
pub open spec fn spec_flow_sql(target_page: Seq<char>) -> Seq<char> {
    "SELECT next_page, COUNT(*) AS visitors FROM ( SELECT visitor_id, sequence_next_node('forward', 'first_match', timestamp, pathname, TRUE, pathname = '"@
        + text::spec_double_char(target_page, '\'')
        + "') AS next_page FROM events WHERE site_id = ? AND timestamp >= CAST(? AS TIMESTAMP) AND timestamp < CAST(? AS TIMESTAMP) GROUP BY visitor_id ) WHERE next_page IS NOT NULL GROUP BY next_page ORDER BY visitors DESC LIMIT 10"@
}

/// Build the flow statement for a target page.
pub fn flow_sql(target_page: &str) -> (r: String)
    ensures
        r@ == spec_flow_sql(target_page@),
{
    let chars = text::chars_of(target_page);
    let escaped = text::double_char(chars.as_slice(), '\'');
    let mut r = String::from_str(
        "SELECT next_page, COUNT(*) AS visitors FROM ( SELECT visitor_id, sequence_next_node('forward', 'first_match', timestamp, pathname, TRUE, pathname = '",
    );
    r.append(text::string_from_chars(escaped.as_slice()).as_str());
    r.append(
        "') AS next_page FROM events WHERE site_id = ? AND timestamp >= CAST(? AS TIMESTAMP) AND timestamp < CAST(? AS TIMESTAMP) GROUP BY visitor_id ) WHERE next_page IS NOT NULL GROUP BY next_page ORDER BY visitors DESC LIMIT 10",
    );
    r
}

/// A retention condition for week `i`: activity in the `i`-th week after
/// the visitor's first week.
pub open spec fn spec_retention_condition(i: u64) -> Seq<char> {
    "DATE_TRUNC('week', timestamp) = DATE_TRUNC('week', first_seen) + INTERVAL '"@ + text::spec_dec(
        i,
    ) + " weeks'"@
}

/// The retention conditions for weeks `0..n`, joined for the statement.
pub open spec fn spec_retention_conditions(n: nat) -> Seq<Seq<char>>
    decreases n,
{
    if n == 0 {
        Seq::empty()
    } else {
        spec_retention_conditions((n - 1) as nat).push(spec_retention_condition((n - 1) as u64))
    }
}

/// Build the retention statement for `num_weeks` weekly cohorts.
pub fn retention_sql(num_weeks: u32) -> (r: String)
    ensures
        r@ == "SELECT STRFTIME(DATE_TRUNC('week', first_seen), '%Y-%m-%d') AS cohort_week, retention("@
            + spec_join(spec_retention_conditions(num_weeks as nat), ", "@)
            + ") AS retained FROM events_all e JOIN ( SELECT visitor_id, MIN(timestamp) AS first_seen FROM events_all WHERE site_id = ? GROUP BY visitor_id ) f ON e.visitor_id = f.visitor_id WHERE e.site_id = ? AND e.timestamp >= CAST(? AS TIMESTAMP) AND e.timestamp < CAST(? AS TIMESTAMP) GROUP BY cohort_week ORDER BY cohort_week"@,
{
    let mut conds = String::new();
    let mut i: u32 = 0;
    while i < num_weeks
        invariant
            0 <= i <= num_weeks,
            conds@ == spec_join(spec_retention_conditions(i as nat), ", "@),
        decreases num_weeks - i,
    {
        if i > 0 {
            conds.append(", ");
        }
        conds.append("DATE_TRUNC('week', timestamp) = DATE_TRUNC('week', first_seen) + INTERVAL '");
        conds.append(text::string_from_chars(text::dec_chars(i as u64).as_slice()).as_str());
        conds.append(" weeks'");
        proof {
            assert(spec_retention_conditions((i + 1) as nat).drop_last() =~= spec_retention_conditions(
                i as nat,
            ));
            assert(conds@ =~= spec_join(spec_retention_conditions((i + 1) as nat), ", "@));
        }
        i = i + 1;
    }
    let mut r = String::from_str(
        "SELECT STRFTIME(DATE_TRUNC('week', first_seen), '%Y-%m-%d') AS cohort_week, retention(",
    );
    r.append(conds.as_str());
    r.append(
        ") AS retained FROM events_all e JOIN ( SELECT visitor_id, MIN(timestamp) AS first_seen FROM events_all WHERE site_id = ? GROUP BY visitor_id ) f ON e.visitor_id = f.visitor_id WHERE e.site_id = ? AND e.timestamp >= CAST(? AS TIMESTAMP) AND e.timestamp < CAST(? AS TIMESTAMP) GROUP BY cohort_week ORDER BY cohort_week",
    );
    r
}

/// A retention cohort: its week and the activity flags per week.
#[derive(Debug)]
pub struct RetentionCohort {
    pub cohort_date: String,
    pub retained: Vec<bool>,
}

/// A funnel step result: step number and how many visitors reached it.
#[derive(Debug, Clone, Copy, PartialEq, Eq, Structural)]
pub struct FunnelStep {
    pub step: u32,
    pub visitors: u64,
}

/// A flow node: the next page and its visitor count.
#[derive(Debug)]
pub struct FlowNode {
    pub next_page: String,
    pub visitors: u64,
}

/// Session metrics in thousandths: count, mean duration and mean pageviews
/// per session.
#[derive(Debug, Clone, Copy, PartialEq, Eq, Structural)]
pub struct SessionMetrics {
    pub total_sessions: u64,
    pub avg_session_duration_secs_milli: u64,
    pub avg_pages_per_session_milli: u64,
}

/// A sequence match result in thousandths.
#[derive(Debug, Clone, Copy, PartialEq, Eq, Structural)]
pub struct SequenceMatchResult {
    pub converting_visitors: u64,
    pub total_visitors: u64,
    pub conversion_rate_milli: u64,
}

/// `s` with every leading `[` removed, then every trailing `]` removed.
pub open spec fn spec_strip_brackets(s: Seq<char>) -> Seq<char> {
    spec_strip_close(spec_strip_open(s))
}

/// `s` without its leading `[` characters.
pub open spec fn spec_strip_open(s: Seq<char>) -> Seq<char>
    decreases s.len(),
{
    if s.len() > 0 && s[0] == '[' {
        spec_strip_open(s.drop_first())
    } else {
        s
    }
}

/// `s` without its trailing `]` characters.
pub open spec fn spec_strip_close(s: Seq<char>) -> Seq<char>
    decreases s.len(),
{
    if s.len() > 0 && s.last() == ']' {
        spec_strip_close(s.drop_last())
    } else {
        s
    }
}

/// The boolean vector a `[true, false, ...]` rendering denotes: brackets
/// stripped, split on commas, each element true exactly when it trims to
/// `true`.
pub open spec fn spec_parse_bool_array(s: Seq<char>) -> Seq<bool> {
    let t = spec_strip_brackets(text::spec_trim(s));
    if t.len() == 0 {
        Seq::empty()
    } else {
        text::spec_split(t, ',').map_values(|p: Seq<char>| text::spec_trim(p) == "true"@)
    }
}

/// Dropping a `[` prefix is what `spec_strip_open` does.
proof fn lemma_strip_open(s: Seq<char>, i: int)
    requires
        0 <= i <= s.len(),
        forall|j: int| 0 <= j < i ==> s[j] == '[',
        i == s.len() || s[i] != '[',
    ensures
        spec_strip_open(s) == s.skip(i),
    decreases i,
{
    if i == 0 {
        assert(s.skip(0) =~= s);
    } else {
        let t = s.drop_first();
        assert(forall|j: int| 0 <= j < i - 1 ==> #[trigger] t[j] == s[j + 1]);
        lemma_strip_open(t, i - 1);
        assert(t.skip(i - 1) =~= s.skip(i));
    }
}

/// Dropping a `]` suffix is what `spec_strip_close` does.
proof fn lemma_strip_close(s: Seq<char>, e: int)
    requires
        0 <= e <= s.len(),
        forall|j: int| e <= j < s.len() ==> s[j] == ']',
        e == 0 || s[e - 1] != ']',
    ensures
        spec_strip_close(s) == s.take(e),
    decreases s.len() - e,
{
    if e == s.len() {
        assert(s.take(e) =~= s);
    } else {
        let t = s.drop_last();
        lemma_strip_close(t, e);
        assert(t.take(e) =~= s.take(e));
    }
}

/// Parse a boolean-array rendering such as `[true, false, true]`.
pub fn parse_bool_array(s: &str) -> (r: Vec<bool>)
    ensures
        r@ == spec_parse_bool_array(s@),
{
    let chars = text::chars_of(s);
    let trimmed = text::trim_slice(chars.as_slice());
    let n: usize = trimmed.len();
    let mut start: usize = 0;
    while start < n && trimmed[start] == '['
        invariant
            0 <= start <= n,
            n == trimmed@.len(),
            forall|j: int| 0 <= j < start ==> trimmed@[j] == '[',
        decreases n - start,
    {
        start = start + 1;
    }
    proof {
        lemma_strip_open(trimmed@, start as int);
    }
    let opened = vstd::slice::slice_subrange(trimmed.as_slice(), start, n);
    proof {
        assert(opened@ =~= trimmed@.skip(start as int));
    }
    let on: usize = opened.len();
    let mut end: usize = on;
    while end > 0 && opened[end - 1] == ']'
        invariant
            0 <= end <= on,
            on == opened@.len(),
            forall|j: int| end <= j < on ==> opened@[j] == ']',
        decreases end,
    {
        end = end - 1;
    }
    proof {
        lemma_strip_close(opened@, end as int);
    }
    let core = vstd::slice::slice_subrange(opened, 0, end);
    proof {
        assert(core@ =~= opened@.take(end as int));
        assert(core@ == spec_strip_brackets(text::spec_trim(s@)));
    }
    if core.len() == 0 {
        let r: Vec<bool> = Vec::new();
        proof {
            assert(r@ =~= spec_parse_bool_array(s@));
        }
        return r;
    }
    let parts = text::split_chars(core, ',');
    let ghost gparts = text::spec_split(core@, ',');
    let mut r: Vec<bool> = Vec::new();
    let mut i: usize = 0;
    while i < parts.len()
        invariant
            0 <= i <= parts@.len(),
            gparts == text::spec_split(core@, ','),
            parts.deep_view() == gparts,
            r@.len() == i,
            forall|j: int|
                0 <= j < i ==> r@[j] == (text::spec_trim(#[trigger] gparts[j]) == "true"@),
        decreases parts@.len() - i,
    {
        let t = text::trim_slice(parts[i].as_slice());
        proof {
            assert(parts@[i as int]@ == gparts[i as int]);
        }
        let b = text::slice_eq_str(t.as_slice(), "true");
        r.push(b);
        i = i + 1;
    }
    proof {
        assert(r@ =~= spec_parse_bool_array(s@));
    }
    r
}

} // verus!
