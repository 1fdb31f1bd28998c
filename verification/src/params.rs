//! Request validation for the stats API: the `site_id` charset rule, period
//! and explicit date ranges, the funnel step grammar, the window interval
//! grammar, export-range bounds and CSV field escaping.

use vstd::prelude::*;
use vstd::utf8::encode_utf8;
use crate::dates;
use crate::dates::Date;
use crate::errors::ApiError;
use crate::text;

verus! {

/// The characters a `site_id` may contain.
pub open spec fn site_id_char_ok(c: char) -> bool {
    ||| ('a' <= c && c <= 'z')
    ||| ('A' <= c && c <= 'Z')
    ||| ('0' <= c && c <= '9')
    ||| c == '.'
    ||| c == '-'
    ||| c == '_'
    ||| c == ':'
}

/// A valid `site_id`: non-empty, at most 256 bytes, drawn from the allowed
/// charset.
pub open spec fn spec_site_id_ok(s: Seq<char>) -> bool {
    &&& s.len() > 0
    &&& encode_utf8(s).len() <= 256
    &&& forall|i: int| 0 <= i < s.len() ==> site_id_char_ok(#[trigger] s[i])
}

/// Validate a `site_id` for use in queries and storage.
pub fn validate_site_id(site_id: &str) -> (r: Result<(), ApiError>)
    ensures
        r is Ok <==> spec_site_id_ok(site_id@),
        r is Err ==> r->Err_0 is BadRequest,
{
    if site_id.is_empty() {
        return Err(ApiError::BadRequest(String::from_str("site_id must not be empty")));
    }
    let bytes: &[u8] = site_id.as_bytes();
    if bytes.len() > 256 {
        return Err(
            ApiError::BadRequest(String::from_str("site_id must be at most 256 characters")),
        );
    }
    let chars = text::chars_of(site_id);
    let mut i: usize = 0;
    while i < chars.len()
        invariant
            0 <= i <= chars@.len(),
            chars@ == site_id@,
            forall|j: int| 0 <= j < i ==> site_id_char_ok(#[trigger] site_id@[j]),
        decreases chars@.len() - i,
    {
        let c = chars[i];
        let ok = ('a' <= c && c <= 'z') || ('A' <= c && c <= 'Z') || ('0' <= c && c <= '9') || c
            == '.' || c == '-' || c == '_' || c == ':';
        if !ok {
            return Err(
                ApiError::BadRequest(
                    String::from_str(
                        "site_id may only contain alphanumeric characters, '.', '-', '_', ':'",
                    ),
                ),
            );
        }
        i = i + 1;
    }
    Ok(())
}

/// The default query period.
pub fn default_period() -> (r: String)
    ensures
        r@ == "30d"@,
{
    String::from_str("30d")
}

/// The default breakdown row limit.
pub fn default_limit() -> (r: usize)
    ensures
        r == 10,
{
    10
}

/// The default funnel window.
pub fn default_window() -> (r: String)
    ensures
        r@ == "1 day"@,
{
    String::from_str("1 day")
}

/// The default number of retention weeks.
pub fn default_num_weeks() -> (r: u32)
    ensures
        r == 4,
{
    4
}

/// The default export format.
pub fn default_export_format() -> (r: String)
    ensures
        r@ == "csv"@,
{
    String::from_str("csv")
}

/// The date range a period denotes, relative to `today`: start inclusive,
/// end exclusive, both rendered `YYYY-MM-DD`. `None` for an unknown period.
pub open spec fn spec_period_range(period: Seq<char>, today: Date) -> Option<
    (Seq<char>, Seq<char>),
> {
    let end = dates::spec_format_date(dates::spec_add_days(today, 1));
    if period == "day"@ || period == "today"@ {
        Some((dates::spec_format_date(today), end))
    } else if period == "7d"@ {
        Some((dates::spec_format_date(dates::spec_sub_days(today, 7)), end))
    } else if period == "30d"@ {
        Some((dates::spec_format_date(dates::spec_sub_days(today, 30)), end))
    } else if period == "90d"@ {
        Some((dates::spec_format_date(dates::spec_sub_days(today, 90)), end))
    } else {
        None
    }
}

/// The date range of a stats request: explicit dates win, else the period
/// is resolved against `today`.
pub open spec fn spec_stats_range(
    start_date: Option<Seq<char>>,
    end_date: Option<Seq<char>>,
    period: Seq<char>,
    today: Date,
) -> Option<(Seq<char>, Seq<char>)> {
    if start_date is Some && end_date is Some {
        Some((start_date->Some_0, end_date->Some_0))
    } else {
        spec_period_range(period, today)
    }
}

/// Whether a period name is one the API accepts. The date range a period
/// denotes depends on the day; whether it is accepted does not.
pub open spec fn period_known(period: Seq<char>) -> bool {
    ||| period == "day"@
    ||| period == "today"@
    ||| period == "7d"@
    ||| period == "30d"@
    ||| period == "90d"@
}

/// Query parameters shared by the stats endpoints.
pub struct StatsParams {
    pub site_id: String,
    pub period: String,
    pub start_date: Option<String>,
    pub end_date: Option<String>,
}

/// The view of an optional string.
pub open spec fn opt_view(s: Option<String>) -> Option<Seq<char>> {
    match s {
        Some(v) => Some(v@),
        None => None,
    }
}

/// Resolve a period name against `today`.
pub fn period_range(period: &String, today: Date) -> (r: Result<(String, String), ApiError>)
    requires
        dates::valid_date(today),
    ensures
        match r {
            Ok(pair) => spec_period_range(period@, today) == Some((pair.0@, pair.1@)),
            Err(e) => spec_period_range(period@, today) is None && e is BadRequest,
        },
{
    let end = dates::format_date(&dates::add_days(today, 1));
    if period.eq(&String::from_str("day")) || period.eq(&String::from_str("today")) {
        Ok((dates::format_date(&today), end))
    } else if period.eq(&String::from_str("7d")) {
        Ok((dates::format_date(&dates::sub_days(today, 7)), end))
    } else if period.eq(&String::from_str("30d")) {
        Ok((dates::format_date(&dates::sub_days(today, 30)), end))
    } else if period.eq(&String::from_str("90d")) {
        Ok((dates::format_date(&dates::sub_days(today, 90)), end))
    } else {
        let mut msg = String::from_str("Invalid period: ");
        msg.append(period.as_str());
        msg.append(". Use 'day', '7d', '30d', '90d', or provide start_date and end_date.");
        Err(ApiError::BadRequest(msg))
    }
}

impl StatsParams {
    /// Resolve the start and end dates from the period or explicit
    /// parameters, relative to `today`.
    pub fn date_range_at(&self, today: Date) -> (r: Result<(String, String), ApiError>)
        requires
            dates::valid_date(today),
        ensures
            match r {
                Ok(pair) => spec_stats_range(
                    opt_view(self.start_date),
                    opt_view(self.end_date),
                    self.period@,
                    today,
                ) == Some((pair.0@, pair.1@)),
                Err(e) => e is BadRequest,
            },
            r is Ok <==> (opt_view(self.start_date) is Some && opt_view(self.end_date) is Some)
                || period_known(self.period@),
    {
        match (&self.start_date, &self.end_date) {
            (Some(start), Some(end)) => Ok((start.clone(), end.clone())),
            _ => period_range(&self.period, today),
        }
    }

    /// Resolve the start and end dates from the period or explicit
    /// parameters, against the current UTC date.
    pub fn date_range(&self) -> (r: Result<(String, String), ApiError>)
        ensures
            match r {
                Ok(pair) => exists|t: Date|
                    dates::valid_date(t) && spec_stats_range(
                        opt_view(self.start_date),
                        opt_view(self.end_date),
                        self.period@,
                        t,
                    ) == Some((pair.0@, pair.1@)),
                Err(e) => e is BadRequest,
            },
            r is Ok <==> (opt_view(self.start_date) is Some && opt_view(self.end_date) is Some)
                || period_known(self.period@),
    {
        let today = dates::today_utc();
        self.date_range_at(today)
    }

    /// Validate `site_id`, then resolve the date range.
    pub fn validate_and_date_range(&self) -> (r: Result<(String, String), ApiError>)
        ensures
            r is Ok ==> spec_site_id_ok(self.site_id@),
            match r {
                Ok(pair) => exists|t: Date|
                    dates::valid_date(t) && spec_stats_range(
                        opt_view(self.start_date),
                        opt_view(self.end_date),
                        self.period@,
                        t,
                    ) == Some((pair.0@, pair.1@)),
                Err(e) => e is BadRequest,
            },
            r is Ok <==> spec_site_id_ok(self.site_id@) && ((opt_view(self.start_date) is Some
                && opt_view(self.end_date) is Some) || period_known(self.period@)),
    {
        match validate_site_id(self.site_id.as_str()) {
            Ok(_) => self.date_range(),
            Err(e) => Err(e),
        }
    }
}

/// Query parameters for the breakdown endpoints.
pub struct BreakdownParams {
    pub site_id: String,
    pub period: String,
    pub start_date: Option<String>,
    pub end_date: Option<String>,
    pub limit: usize,
}

impl BreakdownParams {
    /// Validate `site_id`, then resolve the date range.
    pub fn date_range(&self) -> (r: Result<(String, String), ApiError>)
        ensures
            r is Ok <==> spec_site_id_ok(self.site_id@) && ((opt_view(self.start_date) is Some
                && opt_view(self.end_date) is Some) || period_known(self.period@)),
            r matches Ok(pair) ==> exists|t: Date|
                dates::valid_date(t) && spec_stats_range(
                    opt_view(self.start_date),
                    opt_view(self.end_date),
                    self.period@,
                    t,
                ) == Some((pair.0@, pair.1@)),
            r is Err ==> r->Err_0 is BadRequest,
    {
        match validate_site_id(self.site_id.as_str()) {
            Ok(_) => {
                let p = StatsParams {
                    site_id: self.site_id.clone(),
                    period: self.period.clone(),
                    start_date: self.start_date.clone(),
                    end_date: self.end_date.clone(),
                };
                p.date_range()
            },
            Err(e) => Err(e),
        }
    }
}

/// Query parameters for the funnel endpoint.
pub struct FunnelParams {
    pub site_id: String,
    pub period: String,
    pub start_date: Option<String>,
    pub end_date: Option<String>,
    pub window: String,
    pub steps: String,
}

impl FunnelParams {
    /// Validate `site_id`, then resolve the date range.
    pub fn date_range(&self) -> (r: Result<(String, String), ApiError>)
        ensures
            r is Ok <==> spec_site_id_ok(self.site_id@) && ((opt_view(self.start_date) is Some
                && opt_view(self.end_date) is Some) || period_known(self.period@)),
            r matches Ok(pair) ==> exists|t: Date|
                dates::valid_date(t) && spec_stats_range(
                    opt_view(self.start_date),
                    opt_view(self.end_date),
                    self.period@,
                    t,
                ) == Some((pair.0@, pair.1@)),
            r is Err ==> r->Err_0 is BadRequest,
    {
        match validate_site_id(self.site_id.as_str()) {
            Ok(_) => {
                let p = StatsParams {
                    site_id: self.site_id.clone(),
                    period: self.period.clone(),
                    start_date: self.start_date.clone(),
                    end_date: self.end_date.clone(),
                };
                p.date_range()
            },
            Err(e) => Err(e),
        }
    }
}

/// Query parameters for the retention endpoint.
pub struct RetentionParams {
    pub site_id: String,
    pub period: String,
    pub start_date: Option<String>,
    pub end_date: Option<String>,
    pub weeks: u32,
}

impl RetentionParams {
    /// Validate `site_id`, then resolve the date range.
    pub fn date_range(&self) -> (r: Result<(String, String), ApiError>)
        ensures
            r is Ok <==> spec_site_id_ok(self.site_id@) && ((opt_view(self.start_date) is Some
                && opt_view(self.end_date) is Some) || period_known(self.period@)),
            r matches Ok(pair) ==> exists|t: Date|
                dates::valid_date(t) && spec_stats_range(
                    opt_view(self.start_date),
                    opt_view(self.end_date),
                    self.period@,
                    t,
                ) == Some((pair.0@, pair.1@)),
            r is Err ==> r->Err_0 is BadRequest,
    {
        match validate_site_id(self.site_id.as_str()) {
            Ok(_) => {
                let p = StatsParams {
                    site_id: self.site_id.clone(),
                    period: self.period.clone(),
                    start_date: self.start_date.clone(),
                    end_date: self.end_date.clone(),
                };
                p.date_range()
            },
            Err(e) => Err(e),
        }
    }
}

/// Query parameters for the sequence endpoint.
pub struct SequenceParams {
    pub site_id: String,
    pub period: String,
    pub start_date: Option<String>,
    pub end_date: Option<String>,
    pub steps: String,
}

impl SequenceParams {
    /// Validate `site_id`, then resolve the date range.
    pub fn date_range(&self) -> (r: Result<(String, String), ApiError>)
        ensures
            r is Ok <==> spec_site_id_ok(self.site_id@) && ((opt_view(self.start_date) is Some
                && opt_view(self.end_date) is Some) || period_known(self.period@)),
            r matches Ok(pair) ==> exists|t: Date|
                dates::valid_date(t) && spec_stats_range(
                    opt_view(self.start_date),
                    opt_view(self.end_date),
                    self.period@,
                    t,
                ) == Some((pair.0@, pair.1@)),
            r is Err ==> r->Err_0 is BadRequest,
    {
        match validate_site_id(self.site_id.as_str()) {
            Ok(_) => {
                let p = StatsParams {
                    site_id: self.site_id.clone(),
                    period: self.period.clone(),
                    start_date: self.start_date.clone(),
                    end_date: self.end_date.clone(),
                };
                p.date_range()
            },
            Err(e) => Err(e),
        }
    }
}

/// Query parameters for the flow endpoint.
pub struct FlowParams {
    pub site_id: String,
    pub period: String,
    pub start_date: Option<String>,
    pub end_date: Option<String>,
    pub page: String,
}

impl FlowParams {
    /// Validate `site_id`, then resolve the date range.
    pub fn date_range(&self) -> (r: Result<(String, String), ApiError>)
        ensures
            r is Ok <==> spec_site_id_ok(self.site_id@) && ((opt_view(self.start_date) is Some
                && opt_view(self.end_date) is Some) || period_known(self.period@)),
            r matches Ok(pair) ==> exists|t: Date|
                dates::valid_date(t) && spec_stats_range(
                    opt_view(self.start_date),
                    opt_view(self.end_date),
                    self.period@,
                    t,
                ) == Some((pair.0@, pair.1@)),
            r is Err ==> r->Err_0 is BadRequest,
    {
        match validate_site_id(self.site_id.as_str()) {
            Ok(_) => {
                let p = StatsParams {
                    site_id: self.site_id.clone(),
                    period: self.period.clone(),
                    start_date: self.start_date.clone(),
                    end_date: self.end_date.clone(),
                };
                p.date_range()
            },
            Err(e) => Err(e),
        }
    }
}

/// The largest explicit date range the export endpoint accepts, in days.
pub const MAX_EXPORT_DAYS: u32 = 366;

/// Query parameters for the export endpoint.
pub struct ExportParams {
    pub site_id: String,
    pub period: String,
    pub start_date: Option<String>,
    pub end_date: Option<String>,
    pub format: String,
}

/// Whether an explicit export range is acceptable: both dates parse, the
/// end is not before the start, and the range spans at most
/// `MAX_EXPORT_DAYS` days.
pub open spec fn spec_export_range_ok(start: Seq<char>, end: Seq<char>) -> bool {
    &&& dates::spec_parse_date(start) is Some
    &&& dates::spec_parse_date(end) is Some
    &&& exists|k: nat|
        k <= MAX_EXPORT_DAYS && dates::spec_add_days(dates::spec_parse_date(start)->Some_0, k)
            == dates::spec_parse_date(end)->Some_0
}

impl ExportParams {
    /// Validate `site_id` and, for explicit dates, their format and the
    /// range bound; then resolve the date range.
    pub fn date_range(&self) -> (r: Result<(String, String), ApiError>)
        ensures
            r is Ok ==> spec_site_id_ok(self.site_id@),
            r is Ok && opt_view(self.start_date) is Some && opt_view(self.end_date) is Some
                ==> spec_export_range_ok(
                opt_view(self.start_date)->Some_0,
                opt_view(self.end_date)->Some_0,
            ),
            r matches Ok(pair) ==> exists|t: Date|
                dates::valid_date(t) && spec_stats_range(
                    opt_view(self.start_date),
                    opt_view(self.end_date),
                    self.period@,
                    t,
                ) == Some((pair.0@, pair.1@)),
            r is Err ==> r->Err_0 is BadRequest,
            r is Ok <==> spec_site_id_ok(self.site_id@) && (if opt_view(self.start_date) is Some
                && opt_view(self.end_date) is Some {
                spec_export_range_ok(
                    opt_view(self.start_date)->Some_0,
                    opt_view(self.end_date)->Some_0,
                )
            } else {
                period_known(self.period@)
            }),
    {
        if let Err(e) = validate_site_id(self.site_id.as_str()) {
            return Err(e);
        }
        if let (Some(start_str), Some(end_str)) = (&self.start_date, &self.end_date) {
            let start_chars = text::chars_of(start_str.as_str());
            let end_chars = text::chars_of(end_str.as_str());
            let start = match dates::parse_date(start_chars.as_slice()) {
                Some(d) => d,
                None => {
                    return Err(
                        ApiError::BadRequest(
                            String::from_str("Invalid start_date format. Use YYYY-MM-DD."),
                        ),
                    );
                },
            };
            let end = match dates::parse_date(end_chars.as_slice()) {
                Some(d) => d,
                None => {
                    return Err(
                        ApiError::BadRequest(
                            String::from_str("Invalid end_date format. Use YYYY-MM-DD."),
                        ),
                    );
                },
            };
            match dates::days_between_capped(&start, &end, MAX_EXPORT_DAYS) {
                Some(_) => {},
                None => {
                    if dates::date_lt(&end, &start) {
                        return Err(
                            ApiError::BadRequest(
                                String::from_str("end_date must be on or after start_date"),
                            ),
                        );
                    }
                    return Err(
                        ApiError::BadRequest(
                            String::from_str(
                                "Export date range must not exceed 366 days. Use the period parameter or a shorter explicit range.",
                            ),
                        ),
                    );
                },
            }
        }
        let p = StatsParams {
            site_id: self.site_id.clone(),
            period: self.period.clone(),
            start_date: self.start_date.clone(),
            end_date: self.end_date.clone(),
        };
        p.date_range()
    }
}

/// The SQL condition a funnel step denotes: `page:<path>` matches the
/// pathname, `event:<name>` matches the event name; the value is length
/// bounded and single-quote escaped. `None` for any other shape.
pub open spec fn spec_funnel_step(s: Seq<char>) -> Option<Seq<char>> {
    let t = text::spec_trim(s);
    if text::has_prefix(t, "page:"@) {
        let v = t.skip(5);
        if v.len() == 0 || encode_utf8(v).len() > 256 {
            None
        } else {
            Some("pathname = '"@ + text::spec_double_char(v, '\'') + "'"@)
        }
    } else if text::has_prefix(t, "event:"@) {
        let v = t.skip(6);
        if v.len() == 0 || encode_utf8(v).len() > 256 {
            None
        } else {
            Some("event_name = '"@ + text::spec_double_char(v, '\'') + "'"@)
        }
    } else {
        None
    }
}

/// Parse one funnel step into a safe SQL boolean condition.
pub fn parse_funnel_step(step: &str) -> (r: Result<String, ApiError>)
    ensures
        match r {
            Ok(cond) => spec_funnel_step(step@) == Some(cond@),
            Err(e) => spec_funnel_step(step@) is None && e is BadRequest,
        },
{
    let chars = text::chars_of(step);
    let t = text::trim_slice(chars.as_slice());
    let page_prefix = text::chars_of("page:");
    let event_prefix = text::chars_of("event:");
    proof {
        reveal_strlit("page:");
        reveal_strlit("event:");
    }
    if text::starts_with_sub(t.as_slice(), page_prefix.as_slice()) {
        let v = vstd::slice::slice_subrange(t.as_slice(), 5, t.len());
        proof {
            assert(v@ =~= text::spec_trim(step@).skip(5));
        }
        let vs = text::string_from_chars(v);
        if vs.as_str().is_empty() || vs.as_str().as_bytes().len() > 256 {
            return Err(ApiError::BadRequest(String::from_str("Invalid page path")));
        }
        let escaped = text::double_char(v, '\'');
        let mut cond = String::from_str("pathname = '");
        cond.append(text::string_from_chars(escaped.as_slice()).as_str());
        cond.append("'");
        Ok(cond)
    } else if text::starts_with_sub(t.as_slice(), event_prefix.as_slice()) {
        let v = vstd::slice::slice_subrange(t.as_slice(), 6, t.len());
        proof {
            assert(v@ =~= text::spec_trim(step@).skip(6));
        }
        let vs = text::string_from_chars(v);
        if vs.as_str().is_empty() || vs.as_str().as_bytes().len() > 256 {
            return Err(ApiError::BadRequest(String::from_str("Invalid event name")));
        }
        let escaped = text::double_char(v, '\'');
        let mut cond = String::from_str("event_name = '");
        cond.append(text::string_from_chars(escaped.as_slice()).as_str());
        cond.append("'");
        Ok(cond)
    } else {
        let mut msg = String::from_str("Invalid step format: '");
        msg.append(step);
        msg.append("'. Use 'page:/path' or 'event:name'.");
        Err(ApiError::BadRequest(msg))
    }
}

/// Parse a comma-separated step list; every step must parse.
pub fn parse_steps(steps: &str) -> (r: Result<Vec<String>, ApiError>)
    ensures
        match r {
            Ok(conds) => {
                let parts = text::spec_split(steps@, ',');
                &&& conds@.len() == parts.len()
                &&& forall|i: int|
                    0 <= i < parts.len() ==> spec_funnel_step(parts[i]) == Some(
                        #[trigger] conds@[i]@,
                    )
            },
            Err(e) => (exists|i: int|
                0 <= i < text::spec_split(steps@, ',').len() && spec_funnel_step(
                    #[trigger] text::spec_split(steps@, ',')[i],
                ) is None) && e is BadRequest,
        },
{
    let chars = text::chars_of(steps);
    let parts = text::split_chars(chars.as_slice(), ',');
    let ghost gparts = text::spec_split(steps@, ',');
    let mut conds: Vec<String> = Vec::new();
    let mut i: usize = 0;
    while i < parts.len()
        invariant
            0 <= i <= parts@.len(),
            gparts == text::spec_split(steps@, ','),
            parts.deep_view() == gparts,
            conds@.len() == i,
            forall|j: int|
                0 <= j < i ==> spec_funnel_step(gparts[j]) == Some(#[trigger] conds@[j]@),
        decreases parts@.len() - i,
    {
        let part = text::string_from_chars(parts[i].as_slice());
        proof {
            assert(parts@[i as int]@ == parts.deep_view()[i as int]);
        }
        match parse_funnel_step(part.as_str()) {
            Ok(cond) => {
                conds.push(cond);
            },
            Err(e) => {
                proof {
                    assert(text::spec_split(steps@, ',')[i as int] == gparts[i as int]);
                    assert(spec_funnel_step(text::spec_split(steps@, ',')[i as int]) is None);
                }
                return Err(e);
            },
        }
        i = i + 1;
    }
    Ok(conds)
}

/// Whether an interval unit word is accepted.
pub open spec fn interval_unit_ok(u: Seq<char>) -> bool {
    ||| u == "second"@
    ||| u == "seconds"@
    ||| u == "minute"@
    ||| u == "minutes"@
    ||| u == "hour"@
    ||| u == "hours"@
    ||| u == "day"@
    ||| u == "days"@
    ||| u == "week"@
    ||| u == "weeks"@
}

/// A safe window interval: exactly two words, a count in 1..=365 and a
/// known unit.
pub open spec fn spec_safe_interval(s: Seq<char>) -> bool {
    let w = text::spec_words(s);
    &&& w.len() == 2
    &&& w[0].len() > 0
    &&& text::all_digits(w[0])
    &&& 1 <= text::spec_dec_value(w[0]) <= 365
    &&& interval_unit_ok(w[1])
}

/// Decide whether an interval string is a safe, simple interval.
pub fn is_safe_interval(s: &str) -> (r: bool)
    ensures
        r == spec_safe_interval(s@),
{
    let chars = text::chars_of(s);
    let parts = text::words_of(chars.as_slice());
    if parts.len() != 2 {
        return false;
    }
    proof {
        assert(parts@[0]@ == parts.deep_view()[0]);
        assert(parts@[1]@ == parts.deep_view()[1]);
    }
    let n = match text::parse_dec(parts[0].as_slice(), 365) {
        Some(v) => v,
        None => {
            return false;
        },
    };
    if n == 0 {
        return false;
    }
    let unit = parts[1].as_slice();
    text::slice_eq_str(unit, "second") || text::slice_eq_str(unit, "seconds")
        || text::slice_eq_str(unit, "minute") || text::slice_eq_str(unit, "minutes")
        || text::slice_eq_str(unit, "hour") || text::slice_eq_str(unit, "hours")
        || text::slice_eq_str(unit, "day") || text::slice_eq_str(unit, "days")
        || text::slice_eq_str(unit, "week") || text::slice_eq_str(unit, "weeks")
}

/// Whether a character triggers formula evaluation in spreadsheets.
pub open spec fn csv_formula_char(c: char) -> bool {
    c == '=' || c == '+' || c == '-' || c == '@'
}

/// A CSV field, escaped: internal double quotes doubled, the whole field
/// quoted, and a leading formula-triggering character neutralised with an
/// apostrophe.
pub open spec fn spec_escape_csv(s: Seq<char>) -> Seq<char> {
    let e = text::spec_double_char(s, '"');
    if e.len() > 0 && csv_formula_char(e[0]) {
        seq!['"', '\''] + e + seq!['"']
    } else {
        seq!['"'] + e + seq!['"']
    }
}

/// Escape a CSV field against quote breaking and spreadsheet formula
/// injection.
pub fn escape_csv_field(field: &str) -> (r: String)
    ensures
        r@ == spec_escape_csv(field@),
{
    let chars = text::chars_of(field);
    let escaped = text::double_char(chars.as_slice(), '"');
    let mut out: Vec<char> = Vec::new();
    out.push('"');
    let first_is_formula = if escaped.len() > 0 {
        let c = escaped[0];
        c == '=' || c == '+' || c == '-' || c == '@'
    } else {
        false
    };
    if first_is_formula {
        out.push('\'');
    }
    let mut i: usize = 0;
    while i < escaped.len()
        invariant
            0 <= i <= escaped@.len(),
            out@.len() == (if first_is_formula {
                2int
            } else {
                1int
            }) + i,
            out@ == (if first_is_formula {
                seq!['"', '\'']
            } else {
                seq!['"']
            }) + escaped@.subrange(0, i as int),
        decreases escaped@.len() - i,
    {
        out.push(escaped[i]);
        i = i + 1;
        proof {
            assert(out@ =~= (if first_is_formula {
                seq!['"', '\'']
            } else {
                seq!['"']
            }) + escaped@.subrange(0, i as int));
        }
    }
    out.push('"');
    proof {
        assert(escaped@.subrange(0, escaped@.len() as int) =~= escaped@);
        assert(out@ =~= spec_escape_csv(field@));
    }
    text::string_from_chars(out.as_slice())
}

/// A quoted CSV field, unescaped: the outer quotes stripped and doubled
/// quotes undone. `None` when the outer quotes are missing.
pub open spec fn spec_csv_unquote(s: Seq<char>) -> Option<Seq<char>> {
    if s.len() >= 2 && s[0] == '"' && s.last() == '"' {
        Some(text::spec_undouble(s.subrange(1, s.len() - 1), '"'))
    } else {
        None
    }
}

/// CSV escaping loses nothing: unquoting an escaped field returns the field
/// exactly, except that a field opening with a formula-triggering character
/// comes back with the neutralising apostrophe in front, so a spreadsheet
/// never evaluates it.
pub proof fn lemma_csv_escape_round_trip(f: Seq<char>)
    ensures
        f.len() > 0 && csv_formula_char(f[0]) ==> spec_csv_unquote(spec_escape_csv(f)) == Some(
            seq!['\''] + f,
        ),
        !(f.len() > 0 && csv_formula_char(f[0])) ==> spec_csv_unquote(spec_escape_csv(f)) == Some(
            f,
        ),
{
    let e = text::spec_double_char(f, '"');
    text::lemma_undouble_double(f, '"');
    if f.len() > 0 {
        assert(e[0] == f[0]);
        assert(e.len() > 0);
    }
    if e.len() > 0 && csv_formula_char(e[0]) {
        let out = seq!['"', '\''] + e + seq!['"'];
        assert(out.len() >= 2 && out[0] == '"' && out.last() == '"');
        assert(out.subrange(1, out.len() - 1) =~= seq!['\''] + e);
        text::lemma_undouble_head('\'', e, '"');
        assert(spec_csv_unquote(out) == Some(seq!['\''] + f));
    } else {
        let out = seq!['"'] + e + seq!['"'];
        assert(out.len() >= 2 && out[0] == '"' && out.last() == '"');
        assert(out.subrange(1, out.len() - 1) =~= e);
        assert(spec_csv_unquote(out) == Some(f));
    }
}

} // verus!
