//! Event ingestion: payload validation, string sanitising, pathname and
//! UTM extraction, referrer classification, device classification, and the
//! construction of a storable event from an inbound payload.

use vstd::prelude::*;
use vstd::utf8::encode_utf8;
use crate::dates;
use crate::dates::Date;
use crate::errors::ApiError;
use crate::fingerprint;
use crate::text;
use crate::text::{has_prefix, first_idx};

verus! {

/// A wall-clock instant at second precision: a date and a second-of-day.
#[derive(Clone, Copy, PartialEq, Eq, Structural, Debug)]
pub struct Timestamp {
    pub date: Date,
    pub secs: u32,
}

/// A well-formed timestamp.
pub open spec fn valid_timestamp(t: Timestamp) -> bool {
    dates::valid_date(t.date) && t.secs < 86400
}

/// The `YYYY-MM-DD HH:MM:SS` rendering of a timestamp.
pub open spec fn spec_format_timestamp(t: Timestamp) -> Seq<char> {
    dates::spec_format_date(t.date) + seq![' '] + text::spec_dec_pad((t.secs / 3600) as u64, 2)
        + seq![':'] + text::spec_dec_pad(((t.secs / 60) % 60) as u64, 2) + seq![':']
        + text::spec_dec_pad((t.secs % 60) as u64, 2)
}

/// Render a timestamp as `YYYY-MM-DD HH:MM:SS`.
pub fn format_timestamp(t: &Timestamp) -> (r: String)
    ensures
        r@ == spec_format_timestamp(*t),
{
    let mut chars = text::chars_of(dates::format_date(&t.date).as_str());
    chars.push(' ');
    let mut h = dates::pad_dec((t.secs / 3600) as u64, 2);
    chars.append(&mut h);
    chars.push(':');
    let mut m = dates::pad_dec(((t.secs / 60) % 60) as u64, 2);
    chars.append(&mut m);
    chars.push(':');
    let mut s = dates::pad_dec((t.secs % 60) as u64, 2);
    chars.append(&mut s);
    proof {
        assert(chars@ =~= spec_format_timestamp(*t));
    }
    text::string_from_chars(chars.as_slice())
}

/// A single analytics event, ready for storage. Revenue is carried in
/// thousandths of a currency unit.
#[derive(Debug, Clone)]
pub struct Event {
    pub site_id: String,
    pub visitor_id: String,
    pub timestamp: Timestamp,
    pub event_name: String,
    pub pathname: String,
    pub hostname: Option<String>,
    pub referrer: Option<String>,
    pub referrer_source: Option<String>,
    pub utm_source: Option<String>,
    pub utm_medium: Option<String>,
    pub utm_campaign: Option<String>,
    pub utm_content: Option<String>,
    pub utm_term: Option<String>,
    pub browser: Option<String>,
    pub browser_version: Option<String>,
    pub os: Option<String>,
    pub os_version: Option<String>,
    pub device_type: Option<String>,
    pub screen_size: Option<String>,
    pub country_code: Option<String>,
    pub region: Option<String>,
    pub city: Option<String>,
    pub props: Option<String>,
    pub revenue_milli: Option<i64>,
    pub revenue_currency: Option<String>,
}

/// Geographic information resolved from an IP address. Lookups against the
/// geo database happen outside the library; an unavailable database yields
/// the default, all-unknown value.
#[derive(Debug, Clone)]
pub struct GeoInfo {
    pub country_code: Option<String>,
    pub region: Option<String>,
    pub city: Option<String>,
}

impl Default for GeoInfo {
    /// The all-unknown location.
    fn default() -> (r: Self)
        ensures
            r.country_code is None,
            r.region is None,
            r.city is None,
    {
        GeoInfo { country_code: None, region: None, city: None }
    }
}

/// A control character: one that sanitising removes.
pub open spec fn is_control_char(c: char) -> bool {
    (c as u32) < 32 || (127 <= c as u32 && c as u32 <= 159)
}

/// `s` with its control characters removed.
pub open spec fn spec_keep(s: Seq<char>) -> Seq<char>
    decreases s.len(),
{
    if s.len() == 0 {
        Seq::empty()
    } else {
        spec_keep(s.drop_last()) + (if is_control_char(s.last()) {
            Seq::<char>::empty()
        } else {
            seq![s.last()]
        })
    }
}

/// A sanitised string: control characters removed, then truncated to at
/// most `max` characters.
pub open spec fn spec_sanitize(s: Seq<char>, max: nat) -> Seq<char> {
    let f = spec_keep(s);
    if f.len() <= max {
        f
    } else {
        f.take(max as int)
    }
}

/// Removing control characters distributes over concatenation.
proof fn lemma_keep_add(a: Seq<char>, b: Seq<char>)
    ensures
        spec_keep(a + b) == spec_keep(a) + spec_keep(b),
    decreases b.len(),
{
    if b.len() == 0 {
        assert(a + b =~= a);
        assert(spec_keep(a) + spec_keep(b) =~= spec_keep(a));
    } else {
        lemma_keep_add(a, b.drop_last());
        assert((a + b).drop_last() =~= a + b.drop_last());
        assert((a + b).last() == b.last());
        assert(spec_keep(a + b) =~= spec_keep(a) + spec_keep(b));
    }
}

/// Sanitise a string: drop control characters, keep at most `max_len`
/// characters.
pub fn sanitize_string(input: &str, max_len: usize) -> (r: String)
    ensures
        r@ == spec_sanitize(input@, max_len as nat),
{
    let chars = text::chars_of(input);
    let n: usize = chars.len();
    let mut out: Vec<char> = Vec::new();
    let mut i: usize = 0;
    loop
        invariant
            0 <= i <= n,
            n == input@.len(),
            chars@ == input@,
            out@.len() <= max_len,
            out@ == spec_keep(input@.take(i as int)),
        ensures
            out@ == spec_keep(input@.take(i as int)),
            out@.len() <= max_len,
            i == n || out@.len() == max_len,
        decreases n - i,
    {
        if i >= n || out.len() >= max_len {
            break ;
        }
        let c = chars[i];
        let u = c as u32;
        let is_ctl = u < 32 || (127 <= u && u <= 159);
        i = i + 1;
        proof {
            assert(input@.take(i as int).drop_last() =~= input@.take(i - 1));
            assert(input@.take(i as int).last() == input@[i - 1]);
        }
        if !is_ctl {
            out.push(c);
        }
        proof {
            assert(out@ =~= spec_keep(input@.take(i as int)));
        }
    }
    proof {
        if i == n {
            assert(input@.take(n as int) =~= input@);
        } else {
            assert(input@ =~= input@.take(i as int) + input@.skip(i as int));
            lemma_keep_add(input@.take(i as int), input@.skip(i as int));
            let f = spec_keep(input@);
            assert(f == out@ + spec_keep(input@.skip(i as int)));
            assert(f.len() >= max_len);
            assert(f.take(max_len as int) =~= out@);
        }
    }
    text::string_from_chars(out.as_slice())
}

/// `s` up to (excluding) the first occurrence of `c`, or all of `s` when
/// `c` is absent.
pub open spec fn cut_at(s: Seq<char>, c: char) -> Seq<char> {
    let i = first_idx(s, c);
    if i < 0 {
        s
    } else {
        s.take(i)
    }
}

/// Take the prefix of a slice up to the first occurrence of `c`.
pub fn cut_at_exec(s: &[char], c: char) -> (r: Vec<char>)
    ensures
        r@ == cut_at(s@, c),
{
    proof {
        text::lemma_first_idx(s@, c);
    }
    match text::find_char(s, c) {
        Some(i) => {
            let r = vstd::slice::slice_to_vec(vstd::slice::slice_subrange(s, 0, i));
            proof {
                assert(r@ =~= s@.take(i as int));
            }
            r
        },
        None => vstd::slice::slice_to_vec(s),
    }
}

/// `s` with a leading `https://` or `http://` scheme removed.
pub open spec fn strip_scheme(s: Seq<char>) -> Seq<char> {
    if has_prefix(s, "https://"@) {
        s.skip(8)
    } else if has_prefix(s, "http://"@) {
        s.skip(7)
    } else {
        s
    }
}

/// Remove a leading `https://` or `http://` scheme.
pub fn strip_scheme_exec(s: &[char]) -> (r: Vec<char>)
    ensures
        r@ == strip_scheme(s@),
{
    let https = text::chars_of("https://");
    let http = text::chars_of("http://");
    proof {
        reveal_strlit("https://");
        reveal_strlit("http://");
    }
    if text::starts_with_sub(s, https.as_slice()) {
        let r = vstd::slice::slice_to_vec(vstd::slice::slice_subrange(s, 8, s.len()));
        proof {
            assert(r@ =~= s@.skip(8));
        }
        r
    } else if text::starts_with_sub(s, http.as_slice()) {
        let r = vstd::slice::slice_to_vec(vstd::slice::slice_subrange(s, 7, s.len()));
        proof {
            assert(r@ =~= s@.skip(7));
        }
        r
    } else {
        vstd::slice::slice_to_vec(s)
    }
}

/// The pathname a URL denotes: scheme and host removed, query and fragment
/// cut off, a leading slash restored, and the result sanitised.
pub open spec fn spec_sanitize_pathname(url: Seq<char>) -> Seq<char> {
    let u = strip_scheme(url);
    let after = if first_idx(u, '/') >= 0 {
        u.skip(first_idx(u, '/') + 1)
    } else {
        Seq::<char>::empty()
    };
    let p = seq!['/'] + after;
    let q = cut_at(p, '?');
    let f = cut_at(q, '#');
    spec_sanitize(f, 2048)
}

/// Extract the pathname from a URL, stripping query string and fragment.
pub fn sanitize_pathname(url: &str) -> (r: String)
    ensures
        r@ == spec_sanitize_pathname(url@),
{
    let chars = text::chars_of(url);
    let u = strip_scheme_exec(chars.as_slice());
    proof {
        text::lemma_first_idx(u@, '/');
    }
    let mut p: Vec<char> = Vec::new();
    p.push('/');
    let un: usize = u.len();
    match text::find_char(u.as_slice(), '/') {
        Some(i) => {
            proof {
                assert((i as int) < u@.len());
            }
            let mut rest = vstd::slice::slice_to_vec(
                vstd::slice::slice_subrange(u.as_slice(), i + 1, un),
            );
            p.append(&mut rest);
            proof {
                assert(p@ =~= seq!['/'] + u@.skip(first_idx(u@, '/') + 1));
            }
        },
        None => {
            proof {
                assert(p@ =~= seq!['/'] + Seq::<char>::empty());
            }
        },
    }
    let q = cut_at_exec(p.as_slice(), '?');
    let f = cut_at_exec(q.as_slice(), '#');
    sanitize_string(text::string_from_chars(f.as_slice()).as_str(), 2048)
}

/// The key of a `key=value` pair: everything before the first `=`.
pub open spec fn pair_key(p: Seq<char>) -> Seq<char> {
    cut_at(p, '=')
}

/// The value of a `key=value` pair: everything after the first `=`, empty
/// when there is none.
pub open spec fn pair_value(p: Seq<char>) -> Seq<char> {
    let i = first_idx(p, '=');
    if i < 0 {
        Seq::empty()
    } else {
        p.skip(i + 1)
    }
}

/// The sanitised value of the last `key=value` pair among `parts` whose key
/// is `key` and whose value is non-empty.
pub open spec fn utm_lookup(parts: Seq<Seq<char>>, key: Seq<char>) -> Option<Seq<char>>
    decreases parts.len(),
{
    if parts.len() == 0 {
        None
    } else {
        let p = parts.last();
        if pair_key(p) == key && pair_value(p).len() > 0 {
            Some(spec_sanitize(pair_value(p), 256))
        } else {
            utm_lookup(parts.drop_last(), key)
        }
    }
}

/// The UTM parameter `key` carries in `url`'s query string, sanitised, or
/// `None` when absent or empty.
pub open spec fn spec_utm_param(url: Seq<char>, key: Seq<char>) -> Option<Seq<char>> {
    let qi = first_idx(url, '?');
    if qi < 0 {
        None
    } else {
        utm_lookup(text::spec_split(url.skip(qi + 1), '&'), key)
    }
}

/// Parse the UTM quintuple `(source, medium, campaign, content, term)` from
/// a URL's query string.
#[verifier::rlimit(60)]
pub fn parse_utm_params(url: &str) -> (r: (
    Option<String>,
    Option<String>,
    Option<String>,
    Option<String>,
    Option<String>,
))
    ensures
        r.0.deep_view() == spec_utm_param(url@, "utm_source"@),
        r.1.deep_view() == spec_utm_param(url@, "utm_medium"@),
        r.2.deep_view() == spec_utm_param(url@, "utm_campaign"@),
        r.3.deep_view() == spec_utm_param(url@, "utm_content"@),
        r.4.deep_view() == spec_utm_param(url@, "utm_term"@),
{
    let chars = text::chars_of(url);
    proof {
        text::lemma_first_idx(url@, '?');
    }
    let qi = match text::find_char(chars.as_slice(), '?') {
        Some(i) => i,
        None => {
            return (None, None, None, None, None);
        },
    };
    let clen: usize = chars.len();
    proof {
        assert((qi as int) < url@.len());
    }
    let query = vstd::slice::slice_subrange(chars.as_slice(), qi + 1, clen);
    proof {
        assert(query@ =~= url@.skip(first_idx(url@, '?') + 1));
    }
    let parts = text::split_chars(query, '&');
    let ghost gparts = text::spec_split(query@, '&');
    let mut source: Option<String> = None;
    let mut medium: Option<String> = None;
    let mut campaign: Option<String> = None;
    let mut content: Option<String> = None;
    let mut term: Option<String> = None;
    let mut i: usize = 0;
    while i < parts.len()
        invariant
            0 <= i <= parts@.len(),
            gparts == text::spec_split(query@, '&'),
            parts.deep_view() == gparts,
            source.deep_view() == utm_lookup(gparts.take(i as int), "utm_source"@),
            medium.deep_view() == utm_lookup(gparts.take(i as int), "utm_medium"@),
            campaign.deep_view() == utm_lookup(gparts.take(i as int), "utm_campaign"@),
            content.deep_view() == utm_lookup(gparts.take(i as int), "utm_content"@),
            term.deep_view() == utm_lookup(gparts.take(i as int), "utm_term"@),
        decreases parts@.len() - i,
    {
        let part = parts[i].as_slice();
        proof {
            assert(part@ == gparts[i as int]);
            assert(gparts.take(i + 1).drop_last() =~= gparts.take(i as int));
            assert(gparts.take(i + 1).last() == gparts[i as int]);
            text::lemma_first_idx(part@, '=');
            reveal_strlit("utm_source");
            reveal_strlit("utm_medium");
            reveal_strlit("utm_campaign");
            reveal_strlit("utm_content");
            reveal_strlit("utm_term");
            assert("utm_source"@.len() == 10);
            assert("utm_medium"@.len() == 10);
            assert("utm_campaign"@.len() == 12);
            assert("utm_content"@.len() == 11);
            assert("utm_term"@.len() == 8);
            assert("utm_source"@[4] == 's');
            assert("utm_medium"@[4] == 'm');
            assert("utm_source"@ != "utm_medium"@ && "utm_source"@ != "utm_campaign"@
                && "utm_source"@ != "utm_content"@ && "utm_source"@ != "utm_term"@);
            assert("utm_medium"@ != "utm_campaign"@ && "utm_medium"@ != "utm_content"@
                && "utm_medium"@ != "utm_term"@);
            assert("utm_campaign"@ != "utm_content"@ && "utm_campaign"@ != "utm_term"@);
            assert("utm_content"@ != "utm_term"@);
        }
        let plen: usize = part.len();
        let key = cut_at_exec(part, '=');
        let value: Vec<char> = match text::find_char(part, '=') {
            Some(e) => {
                proof {
                    assert((e as int) < part@.len());
                }
                let v = vstd::slice::slice_to_vec(
                    vstd::slice::slice_subrange(part, e + 1, plen),
                );
                proof {
                    assert(v@ =~= pair_value(part@));
                }
                v
            },
            None => {
                let v: Vec<char> = Vec::new();
                proof {
                    assert(v@ =~= pair_value(part@));
                }
                v
            },
        };
        if value.len() > 0 {
            let ks = key.as_slice();
            if text::slice_eq_str(ks, "utm_source") {
                source = Some(
                    sanitize_string(text::string_from_chars(value.as_slice()).as_str(), 256),
                );
            } else if text::slice_eq_str(ks, "utm_medium") {
                medium = Some(
                    sanitize_string(text::string_from_chars(value.as_slice()).as_str(), 256),
                );
            } else if text::slice_eq_str(ks, "utm_campaign") {
                campaign = Some(
                    sanitize_string(text::string_from_chars(value.as_slice()).as_str(), 256),
                );
            } else if text::slice_eq_str(ks, "utm_content") {
                content = Some(
                    sanitize_string(text::string_from_chars(value.as_slice()).as_str(), 256),
                );
            } else if text::slice_eq_str(ks, "utm_term") {
                term = Some(
                    sanitize_string(text::string_from_chars(value.as_slice()).as_str(), 256),
                );
            }
        }
        i = i + 1;
    }
    proof {
        assert(gparts.take(gparts.len() as int) =~= gparts);
    }
    (source, medium, campaign, content, term)
}

/// The host of a referrer URL: scheme removed, then cut at the first slash
/// and the first colon.
pub open spec fn spec_referrer_host(r: Seq<char>) -> Seq<char> {
    cut_at(cut_at(strip_scheme(r), '/'), ':')
}

/// The referrer source name: known hosts are mapped to their service name,
/// any other non-empty host is returned as is.
pub open spec fn spec_referrer_source(r: Seq<char>) -> Option<Seq<char>> {
    if r.len() == 0 {
        None
    } else {
        let h = spec_referrer_host(r);
        if h.len() == 0 {
            None
        } else if text::has_sub(h, "google"@) {
            Some("Google"@)
        } else if text::has_sub(h, "bing"@) {
            Some("Bing"@)
        } else if text::has_sub(h, "yahoo"@) {
            Some("Yahoo"@)
        } else if text::has_sub(h, "duckduckgo"@) {
            Some("DuckDuckGo"@)
        } else if text::has_sub(h, "twitter"@) || h == "t.co"@ {
            Some("Twitter"@)
        } else if text::has_sub(h, "facebook"@) || text::has_sub(h, "fb.com"@) {
            Some("Facebook"@)
        } else if text::has_sub(h, "linkedin"@) {
            Some("LinkedIn"@)
        } else if text::has_sub(h, "reddit"@) {
            Some("Reddit"@)
        } else if text::has_sub(h, "github"@) {
            Some("GitHub"@)
        } else {
            Some(h)
        }
    }
}

/// Extract a simplified referrer source name from a referrer URL.
pub fn extract_referrer_source(referrer: &str) -> (r: Option<String>)
    ensures
        r.deep_view() == spec_referrer_source(referrer@),
{
    if referrer.is_empty() {
        return None;
    }
    let chars = text::chars_of(referrer);
    let stripped = strip_scheme_exec(chars.as_slice());
    let h1 = cut_at_exec(stripped.as_slice(), '/');
    let host = cut_at_exec(h1.as_slice(), ':');
    if host.len() == 0 {
        return None;
    }
    let h = host.as_slice();
    let google = text::chars_of("google");
    let bing = text::chars_of("bing");
    let yahoo = text::chars_of("yahoo");
    let ddg = text::chars_of("duckduckgo");
    let twitter = text::chars_of("twitter");
    let facebook = text::chars_of("facebook");
    let fbcom = text::chars_of("fb.com");
    let linkedin = text::chars_of("linkedin");
    let reddit = text::chars_of("reddit");
    let github = text::chars_of("github");
    if text::contains_sub(h, google.as_slice()) {
        Some(String::from_str("Google"))
    } else if text::contains_sub(h, bing.as_slice()) {
        Some(String::from_str("Bing"))
    } else if text::contains_sub(h, yahoo.as_slice()) {
        Some(String::from_str("Yahoo"))
    } else if text::contains_sub(h, ddg.as_slice()) {
        Some(String::from_str("DuckDuckGo"))
    } else if text::contains_sub(h, twitter.as_slice()) || text::slice_eq_str(h, "t.co") {
        Some(String::from_str("Twitter"))
    } else if text::contains_sub(h, facebook.as_slice()) || text::contains_sub(
        h,
        fbcom.as_slice(),
    ) {
        Some(String::from_str("Facebook"))
    } else if text::contains_sub(h, linkedin.as_slice()) {
        Some(String::from_str("LinkedIn"))
    } else if text::contains_sub(h, reddit.as_slice()) {
        Some(String::from_str("Reddit"))
    } else if text::contains_sub(h, github.as_slice()) {
        Some(String::from_str("GitHub"))
    } else {
        Some(text::string_from_chars(h))
    }
}

/// The device class a screen width denotes: below 768 is mobile, below
/// 1024 is tablet, anything else is desktop.
pub open spec fn spec_classify_device(width: u32) -> Seq<char> {
    if width < 768 {
        "mobile"@
    } else if width < 1024 {
        "tablet"@
    } else {
        "desktop"@
    }
}

/// Classify a device by its screen width.
pub fn classify_device(width: u32) -> (r: String)
    ensures
        r@ == spec_classify_device(width),
{
    if width < 768 {
        String::from_str("mobile")
    } else if width < 1024 {
        String::from_str("tablet")
    } else {
        String::from_str("desktop")
    }
}

/// The client IP as derived from forwarding headers: the first entry of
/// `X-Forwarded-For` (trimmed), else `X-Real-IP`, else `"unknown"`.
pub open spec fn spec_client_ip(xff: Option<Seq<char>>, real_ip: Option<Seq<char>>) -> Seq<char> {
    match xff {
        Some(v) => text::spec_trim(cut_at(v, ',')),
        None => match real_ip {
            Some(v) => v,
            None => "unknown"@,
        },
    }
}

/// Derive the client IP from the forwarding headers' values.
pub fn client_ip(xff: Option<&str>, real_ip: Option<&str>) -> (r: String)
    ensures
        r@ == spec_client_ip(
            match xff {
                Some(v) => Some(v@),
                None => None,
            },
            match real_ip {
                Some(v) => Some(v@),
                None => None,
            },
        ),
{
    match xff {
        Some(v) => {
            let chars = text::chars_of(v);
            let head = cut_at_exec(chars.as_slice(), ',');
            let trimmed = text::trim_slice(head.as_slice());
            text::string_from_chars(trimmed.as_slice())
        },
        None => match real_ip {
            Some(v) => String::from_str(v),
            None => String::from_str("unknown"),
        },
    }
}

/// An inbound event payload, already decoded from the wire format.
/// Revenue is carried in thousandths of a currency unit.
#[derive(Debug, Clone)]
pub struct EventPayload {
    pub domain: String,
    pub name: String,
    pub url: String,
    pub referrer: Option<String>,
    pub screen_width: Option<u32>,
    pub props: Option<String>,
    pub revenue_milli: Option<i64>,
    pub revenue_currency: Option<String>,
}

/// A valid payload: required fields non-empty, all fields within their
/// byte-length caps.
pub open spec fn spec_payload_ok(p: EventPayload) -> bool {
    &&& p.domain@.len() > 0
    &&& p.name@.len() > 0
    &&& p.url@.len() > 0
    &&& encode_utf8(p.domain@).len() <= 256
    &&& encode_utf8(p.name@).len() <= 256
    &&& encode_utf8(p.url@).len() <= 2048
    &&& match p.referrer {
        Some(r) => encode_utf8(r@).len() <= 2048,
        None => true,
    }
    &&& match p.props {
        Some(pr) => encode_utf8(pr@).len() <= 4096,
        None => true,
    }
}

/// Validate an inbound payload and build the storable event: visitor ID
/// from IP, user agent and salt; UTM and referrer classification; device
/// class from the screen width; every string sanitised.
pub fn prepare_event(
    payload: &EventPayload,
    ip: &str,
    user_agent: &str,
    salt: &str,
    now: Timestamp,
) -> (r: Result<Event, ApiError>)
    ensures
        r is Ok <==> spec_payload_ok(*payload),
        r is Err ==> r->Err_0 is BadRequest,
        r is Ok ==> {
            let e = r->Ok_0;
            &&& e.site_id@ == spec_sanitize(payload.domain@, 256)
            &&& e.visitor_id@ == fingerprint::spec_visitor_id(ip@, user_agent@, salt@)
            &&& e.visitor_id@.len() == 64
            &&& forall|i: int|
                0 <= i < e.visitor_id@.len() ==> crate::hashes::is_hex_char(
                    #[trigger] e.visitor_id@[i],
                )
            &&& e.timestamp == now
            &&& e.event_name@ == spec_sanitize(payload.name@, 256)
            &&& e.pathname@ == spec_sanitize_pathname(payload.url@)
            &&& e.hostname matches Some(h) && h@ == spec_sanitize(payload.domain@, 256)
            &&& match payload.referrer {
                Some(ref_str) => e.referrer matches Some(er) && er@ == spec_sanitize(
                    ref_str@,
                    2048,
                ) && e.referrer_source.deep_view() == spec_referrer_source(ref_str@),
                None => e.referrer is None && e.referrer_source is None,
            }
            &&& e.utm_source.deep_view() == spec_utm_param(payload.url@, "utm_source"@)
            &&& e.utm_medium.deep_view() == spec_utm_param(payload.url@, "utm_medium"@)
            &&& e.utm_campaign.deep_view() == spec_utm_param(payload.url@, "utm_campaign"@)
            &&& e.utm_content.deep_view() == spec_utm_param(payload.url@, "utm_content"@)
            &&& e.utm_term.deep_view() == spec_utm_param(payload.url@, "utm_term"@)
            &&& e.browser is None
            &&& e.browser_version is None
            &&& e.os is None
            &&& e.os_version is None
            &&& match payload.screen_width {
                Some(w) => (e.device_type matches Some(d) && d@ == spec_classify_device(w)) && (
                e.screen_size matches Some(ss) && ss@ == text::spec_dec(w as u64)),
                None => e.device_type is None && e.screen_size is None,
            }
            &&& e.country_code is None
            &&& e.region is None
            &&& e.city is None
            &&& match payload.props {
                Some(pr) => e.props matches Some(ep) && ep@ == spec_sanitize(pr@, 4096),
                None => e.props is None,
            }
            &&& e.revenue_milli == payload.revenue_milli
            &&& match payload.revenue_currency {
                Some(rc) => e.revenue_currency matches Some(ec) && ec@ == spec_sanitize(rc@, 3),
                None => e.revenue_currency is None,
            }
        },
{
    if payload.domain.as_str().is_empty() || payload.name.as_str().is_empty()
        || payload.url.as_str().is_empty() {
        return Err(ApiError::BadRequest(String::from_str("missing required field")));
    }
    if payload.domain.as_str().as_bytes().len() > 256 || payload.name.as_str().as_bytes().len()
        > 256 || payload.url.as_str().as_bytes().len() > 2048 {
        return Err(ApiError::BadRequest(String::from_str("field too long")));
    }
    if let Some(r) = &payload.referrer {
        if r.as_str().as_bytes().len() > 2048 {
            return Err(ApiError::BadRequest(String::from_str("field too long")));
        }
    }
    if let Some(pr) = &payload.props {
        if pr.as_str().as_bytes().len() > 4096 {
            return Err(ApiError::BadRequest(String::from_str("field too long")));
        }
    }
    let vid = fingerprint::generate_visitor_id(ip, user_agent, salt);
    let (utm_source, utm_medium, utm_campaign, utm_content, utm_term) = parse_utm_params(
        payload.url.as_str(),
    );
    let referrer = match &payload.referrer {
        Some(r) => Some(sanitize_string(r.as_str(), 2048)),
        None => None,
    };
    let referrer_source = match &payload.referrer {
        Some(r) => extract_referrer_source(r.as_str()),
        None => None,
    };
    let device_type = match payload.screen_width {
        Some(w) => Some(classify_device(w)),
        None => None,
    };
    let screen_size = match payload.screen_width {
        Some(w) => Some(
            text::string_from_chars(text::dec_chars(w as u64).as_slice()),
        ),
        None => None,
    };
    let pathname = sanitize_pathname(payload.url.as_str());
    let props = match &payload.props {
        Some(p) => Some(sanitize_string(p.as_str(), 4096)),
        None => None,
    };
    let revenue_currency = match &payload.revenue_currency {
        Some(c) => Some(sanitize_string(c.as_str(), 3)),
        None => None,
    };
    Ok(
        Event {
            site_id: sanitize_string(payload.domain.as_str(), 256),
            visitor_id: vid,
            timestamp: now,
            event_name: sanitize_string(payload.name.as_str(), 256),
            pathname,
            hostname: Some(sanitize_string(payload.domain.as_str(), 256)),
            referrer,
            referrer_source,
            utm_source,
            utm_medium,
            utm_campaign,
            utm_content,
            utm_term,
            browser: None,
            browser_version: None,
            os: None,
            os_version: None,
            device_type,
            screen_size,
            country_code: None,
            region: None,
            city: None,
            props,
            revenue_milli: payload.revenue_milli,
            revenue_currency,
        },
    )
}

} // verus!
