//! User-agent classification: browser and OS detection with version
//! extraction, and substring-based bot detection. All signals fail soft: an
//! unrecognised user agent yields `None` everywhere, never an error.

use vstd::prelude::*;
use crate::text;
use crate::text::{has_sub, has_prefix, matches_at};

verus! {

/// Parsed user-agent information.
#[derive(Debug, Clone)]
pub struct ParsedUserAgent {
    pub browser: Option<String>,
    pub browser_version: Option<String>,
    pub os: Option<String>,
    pub os_version: Option<String>,
    pub is_bot: bool,
}

impl Default for ParsedUserAgent {
    /// The all-unknown parse: no browser, no OS, not a bot.
    fn default() -> (r: Self)
        ensures
            r.browser is None,
            r.browser_version is None,
            r.os is None,
            r.os_version is None,
            !r.is_bot,
    {
        ParsedUserAgent {
            browser: None,
            browser_version: None,
            os: None,
            os_version: None,
            is_bot: false,
        }
    }
}

/// What `str::to_lowercase` returns: the Unicode lowercase mapping of the
/// string, a function of the characters alone.
pub uninterp spec fn lower_of(s: Seq<char>) -> Seq<char>;

/// Relies on `str::to_lowercase` of std: the result depends on the
/// characters alone.
#[verifier::external_body]
fn to_lowercase(s: &str) -> (r: String)
    ensures
        r@ == lower_of(s@),
{
    s.to_lowercase()
}

/// The bot deny-list, applied to the lowercased user agent: a fixed set of
/// substring tokens plus a few prefix-only tokens.
pub open spec fn spec_is_bot_lower(l: Seq<char>) -> bool {
    ||| has_sub(l, "bot"@)
    ||| has_sub(l, "crawler"@)
    ||| has_sub(l, "spider"@)
    ||| has_sub(l, "slurp"@)
    ||| has_sub(l, "fetch"@)
    ||| has_sub(l, "headless"@)
    ||| has_sub(l, "phantom"@)
    ||| has_sub(l, "lighthouse"@)
    ||| has_sub(l, "pingdom"@)
    ||| has_sub(l, "uptimerobot"@)
    ||| has_sub(l, "python-requests"@)
    ||| has_sub(l, "python-urllib"@)
    ||| has_sub(l, "go-http-client"@)
    ||| has_sub(l, "java/"@)
    ||| has_sub(l, "wget"@)
    ||| has_prefix(l, "curl"@)
    ||| has_prefix(l, "libwww"@)
    ||| has_prefix(l, "lwp-"@)
    ||| has_prefix(l, "scrapy"@)
    ||| has_sub(l, "mediapartners"@)
    ||| has_sub(l, "adsbot"@)
    ||| has_sub(l, "apis-google"@)
    ||| has_sub(l, "feedfetcher"@)
    ||| has_sub(l, "facebookexternalhit"@)
    ||| has_sub(l, "linkedinbot"@)
    ||| has_sub(l, "discordbot"@)
    ||| has_sub(l, "telegrambot"@)
    ||| has_sub(l, "whatsapp"@)
    ||| has_sub(l, "applebot"@)
    ||| has_sub(l, "ahrefsbot"@)
    ||| has_sub(l, "semrushbot"@)
    ||| has_sub(l, "dotbot"@)
    ||| has_sub(l, "petalbot"@)
    ||| has_sub(l, "yandexbot"@)
    ||| has_sub(l, "baiduspider"@)
    ||| has_sub(l, "duckduckbot"@)
    ||| has_sub(l, "sogou"@)
    ||| has_sub(l, "exabot"@)
}

/// Decide whether a user agent belongs to a known bot or crawler. The match
/// is on substrings of the lowercased string, so a name that merely
/// contains a token (such as "bot") is flagged too.
pub fn is_bot(ua: &str) -> (r: bool)
    ensures
        r == spec_is_bot_lower(lower_of(ua@)),
{
    let lower = to_lowercase(ua);
    let l = text::chars_of(lower.as_str());
    let lc = l.as_slice();
    let c1 = text::chars_of("bot");
    let c2 = text::chars_of("crawler");
    let c3 = text::chars_of("spider");
    let c4 = text::chars_of("slurp");
    let c5 = text::chars_of("fetch");
    let c6 = text::chars_of("headless");
    let c7 = text::chars_of("phantom");
    let c8 = text::chars_of("lighthouse");
    let c9 = text::chars_of("pingdom");
    let c10 = text::chars_of("uptimerobot");
    let c11 = text::chars_of("python-requests");
    let c12 = text::chars_of("python-urllib");
    let c13 = text::chars_of("go-http-client");
    let c14 = text::chars_of("java/");
    let c15 = text::chars_of("wget");
    let p1 = text::chars_of("curl");
    let p2 = text::chars_of("libwww");
    let p3 = text::chars_of("lwp-");
    let p4 = text::chars_of("scrapy");
    let c16 = text::chars_of("mediapartners");
    let c17 = text::chars_of("adsbot");
    let c18 = text::chars_of("apis-google");
    let c19 = text::chars_of("feedfetcher");
    let c20 = text::chars_of("facebookexternalhit");
    let c21 = text::chars_of("linkedinbot");
    let c22 = text::chars_of("discordbot");
    let c23 = text::chars_of("telegrambot");
    let c24 = text::chars_of("whatsapp");
    let c25 = text::chars_of("applebot");
    let c26 = text::chars_of("ahrefsbot");
    let c27 = text::chars_of("semrushbot");
    let c28 = text::chars_of("dotbot");
    let c29 = text::chars_of("petalbot");
    let c30 = text::chars_of("yandexbot");
    let c31 = text::chars_of("baiduspider");
    let c32 = text::chars_of("duckduckbot");
    let c33 = text::chars_of("sogou");
    let c34 = text::chars_of("exabot");
    text::contains_sub(lc, c1.as_slice()) || text::contains_sub(lc, c2.as_slice())
        || text::contains_sub(lc, c3.as_slice()) || text::contains_sub(lc, c4.as_slice())
        || text::contains_sub(lc, c5.as_slice()) || text::contains_sub(lc, c6.as_slice())
        || text::contains_sub(lc, c7.as_slice()) || text::contains_sub(lc, c8.as_slice())
        || text::contains_sub(lc, c9.as_slice()) || text::contains_sub(lc, c10.as_slice())
        || text::contains_sub(lc, c11.as_slice()) || text::contains_sub(lc, c12.as_slice())
        || text::contains_sub(lc, c13.as_slice()) || text::contains_sub(lc, c14.as_slice())
        || text::contains_sub(lc, c15.as_slice()) || text::starts_with_sub(lc, p1.as_slice())
        || text::starts_with_sub(lc, p2.as_slice()) || text::starts_with_sub(lc, p3.as_slice())
        || text::starts_with_sub(lc, p4.as_slice()) || text::contains_sub(lc, c16.as_slice())
        || text::contains_sub(lc, c17.as_slice()) || text::contains_sub(lc, c18.as_slice())
        || text::contains_sub(lc, c19.as_slice()) || text::contains_sub(lc, c20.as_slice())
        || text::contains_sub(lc, c21.as_slice()) || text::contains_sub(lc, c22.as_slice())
        || text::contains_sub(lc, c23.as_slice()) || text::contains_sub(lc, c24.as_slice())
        || text::contains_sub(lc, c25.as_slice()) || text::contains_sub(lc, c26.as_slice())
        || text::contains_sub(lc, c27.as_slice()) || text::contains_sub(lc, c28.as_slice())
        || text::contains_sub(lc, c29.as_slice()) || text::contains_sub(lc, c30.as_slice())
        || text::contains_sub(lc, c31.as_slice()) || text::contains_sub(lc, c32.as_slice())
        || text::contains_sub(lc, c33.as_slice()) || text::contains_sub(lc, c34.as_slice())
}

/// The browser a user agent denotes: an ordered match against signature
/// substrings, most specific first.
pub open spec fn spec_detect_browser(s: Seq<char>) -> Option<Seq<char>> {
    if has_sub(s, "Edg/"@) || has_sub(s, "Edge/"@) {
        Some("Edge"@)
    } else if has_sub(s, "OPR/"@) || has_sub(s, "Opera"@) {
        Some("Opera"@)
    } else if has_sub(s, "Vivaldi/"@) {
        Some("Vivaldi"@)
    } else if has_sub(s, "Brave"@) {
        Some("Brave"@)
    } else if has_sub(s, "SamsungBrowser/"@) {
        Some("Samsung Internet"@)
    } else if has_sub(s, "UCBrowser/"@) || has_sub(s, "UCWEB/"@) {
        Some("UC Browser"@)
    } else if has_sub(s, "Chrome/"@) && !has_sub(s, "Chromium/"@) {
        Some("Chrome"@)
    } else if has_sub(s, "Safari/"@) && !has_sub(s, "Chrome/"@) {
        Some("Safari"@)
    } else if has_sub(s, "Firefox/"@) {
        Some("Firefox"@)
    } else {
        None
    }
}

/// Detect the browser family from a user agent.
pub fn detect_browser(ua: &str) -> (r: Option<String>)
    ensures
        r.deep_view() == spec_detect_browser(ua@),
{
    let chars = text::chars_of(ua);
    let s = chars.as_slice();
    let edg = text::chars_of("Edg/");
    let edge = text::chars_of("Edge/");
    let opr = text::chars_of("OPR/");
    let opera = text::chars_of("Opera");
    let vivaldi = text::chars_of("Vivaldi/");
    let brave = text::chars_of("Brave");
    let samsung = text::chars_of("SamsungBrowser/");
    let ucb = text::chars_of("UCBrowser/");
    let ucw = text::chars_of("UCWEB/");
    let chrome = text::chars_of("Chrome/");
    let chromium = text::chars_of("Chromium/");
    let safari = text::chars_of("Safari/");
    let firefox = text::chars_of("Firefox/");
    if text::contains_sub(s, edg.as_slice()) || text::contains_sub(s, edge.as_slice()) {
        Some(String::from_str("Edge"))
    } else if text::contains_sub(s, opr.as_slice()) || text::contains_sub(s, opera.as_slice()) {
        Some(String::from_str("Opera"))
    } else if text::contains_sub(s, vivaldi.as_slice()) {
        Some(String::from_str("Vivaldi"))
    } else if text::contains_sub(s, brave.as_slice()) {
        Some(String::from_str("Brave"))
    } else if text::contains_sub(s, samsung.as_slice()) {
        Some(String::from_str("Samsung Internet"))
    } else if text::contains_sub(s, ucb.as_slice()) || text::contains_sub(s, ucw.as_slice()) {
        Some(String::from_str("UC Browser"))
    } else if text::contains_sub(s, chrome.as_slice()) && !text::contains_sub(
        s,
        chromium.as_slice(),
    ) {
        Some(String::from_str("Chrome"))
    } else if text::contains_sub(s, safari.as_slice()) && !text::contains_sub(
        s,
        chrome.as_slice(),
    ) {
        Some(String::from_str("Safari"))
    } else if text::contains_sub(s, firefox.as_slice()) {
        Some(String::from_str("Firefox"))
    } else {
        None
    }
}

/// Whether a character may appear in a version token: an ASCII digit, a
/// dot, or — on Apple platforms — an underscore.
pub open spec fn version_char(c: char, allow_underscore: bool) -> bool {
    ('0' <= c && c <= '9') || c == '.' || (allow_underscore && c == '_')
}

/// Index of the first occurrence of `needle` in `s`, or -1 when absent.
pub open spec fn first_sub_idx(s: Seq<char>, needle: Seq<char>) -> int
    decreases s.len(),
{
    if has_prefix(s, needle) {
        0
    } else if s.len() == 0 {
        -1
    } else {
        let r = first_sub_idx(s.drop_first(), needle);
        if r < 0 {
            -1
        } else {
            r + 1
        }
    }
}

/// The defining properties of `first_sub_idx`.
pub proof fn lemma_first_sub_idx(s: Seq<char>, needle: Seq<char>)
    ensures
        first_sub_idx(s, needle) == -1 ==> !has_sub(s, needle),
        first_sub_idx(s, needle) != -1 ==> {
            let i = first_sub_idx(s, needle);
            &&& 0 <= i
            &&& i + needle.len() <= s.len()
            &&& matches_at(s, needle, i)
            &&& forall|j: int| 0 <= j < i ==> !matches_at(s, needle, j)
        },
    decreases s.len(),
{
    if has_prefix(s, needle) {
    } else if s.len() == 0 {
        assert forall|i: int| !matches_at(s, needle, i) by {
            if 0 <= i && i + needle.len() <= s.len() {
                assert(i == 0 && needle.len() == 0);
            }
        }
    } else {
        let t = s.drop_first();
        lemma_first_sub_idx(t, needle);
        let r = first_sub_idx(t, needle);
        assert forall|j: int| 1 <= j && j + needle.len() <= s.len() implies (matches_at(s, needle, j)
            == matches_at(t, needle, j - 1)) by {
            assert(forall|k: int| 0 <= k < needle.len() ==> #[trigger] t[j - 1 + k] == s[j + k]);
        }
        if r < 0 {
            assert forall|i: int| !matches_at(s, needle, i) by {
                if 0 <= i && i + needle.len() <= s.len() {
                    if i == 0 {
                        assert(!has_prefix(s, needle));
                    } else {
                        assert(!matches_at(t, needle, i - 1));
                    }
                }
            }
        } else {
            assert(matches_at(t, needle, r));
            assert(matches_at(s, needle, r + 1));
            assert forall|j: int| 0 <= j < r + 1 implies !matches_at(s, needle, j) by {
                if j == 0 {
                    assert(!has_prefix(s, needle));
                } else {
                    assert(!matches_at(t, needle, j - 1));
                }
            }
        }
    }
}

/// Length of the run of version characters starting at `j`.
pub open spec fn run_len(s: Seq<char>, j: int, allow_underscore: bool) -> int
    decreases s.len() - j,
{
    if 0 <= j < s.len() && version_char(s[j], allow_underscore) {
        1 + run_len(s, j + 1, allow_underscore)
    } else {
        0
    }
}

/// The version token following the first occurrence of `prefix` in `s`:
/// the run of version characters right after it, or `None` when the prefix
/// is absent or the run is empty.
pub open spec fn spec_version_after(s: Seq<char>, prefix: Seq<char>, allow_underscore: bool) -> Option<
    Seq<char>,
> {
    if !has_sub(s, prefix) {
        None
    } else {
        let st = first_sub_idx(s, prefix) + prefix.len();
        let l = run_len(s, st, allow_underscore);
        if l == 0 {
            None
        } else {
            Some(s.subrange(st, st + l))
        }
    }
}

/// A run of version characters bounded by a non-version character (or the
/// end) has exactly the scanned length.
proof fn lemma_run_len(s: Seq<char>, st: int, j: int, allow_underscore: bool)
    requires
        0 <= st <= j <= s.len(),
        forall|k: int| st <= k < j ==> version_char(#[trigger] s[k], allow_underscore),
        j == s.len() || !version_char(s[j as int], allow_underscore),
    ensures
        run_len(s, st, allow_underscore) == j - st,
    decreases j - st,
{
    if st < j {
        lemma_run_len(s, st + 1, j, allow_underscore);
    }
}

/// Extract the version token after the first occurrence of `prefix`.
fn version_after(s: &[char], prefix: &[char], allow_underscore: bool) -> (r: Option<Vec<char>>)
    ensures
        match r {
            Some(v) => spec_version_after(s@, prefix@, allow_underscore) == Some(v@),
            None => spec_version_after(s@, prefix@, allow_underscore) is None,
        },
{
    proof {
        lemma_first_sub_idx(s@, prefix@);
    }
    let i = match text::find_sub(s, prefix) {
        Some(i) => i,
        None => {
            proof {
                if first_sub_idx(s@, prefix@) != -1 {
                    assert(matches_at(s@, prefix@, first_sub_idx(s@, prefix@)));
                    assert(has_sub(s@, prefix@));
                }
            }
            return None;
        },
    };
    proof {
        assert(has_sub(s@, prefix@));
        assert(first_sub_idx(s@, prefix@) != -1);
        let fi = first_sub_idx(s@, prefix@);
        if fi < i as int {
            assert(matches_at(s@, prefix@, fi));
        }
        if (i as int) < fi {
            assert(!matches_at(s@, prefix@, i as int));
        }
        assert(fi == i as int);
    }
    let n: usize = s.len();
    proof {
        assert(i + prefix@.len() <= n);
    }
    let st: usize = i + prefix.len();
    let mut j: usize = st;
    let mut v: Vec<char> = Vec::new();
    loop
        invariant
            st <= j <= n,
            n == s@.len(),
            st <= s@.len(),
            forall|k: int| st <= k < j ==> version_char(#[trigger] s@[k], allow_underscore),
            v@ == s@.subrange(st as int, j as int),
        ensures
            st <= j <= n,
            forall|k: int| st <= k < j ==> version_char(#[trigger] s@[k], allow_underscore),
            v@ == s@.subrange(st as int, j as int),
            j == n || !version_char(s@[j as int], allow_underscore),
        decreases n - j,
    {
        if j >= n {
            break ;
        }
        let c = s[j];
        let is_ver = ('0' <= c && c <= '9') || c == '.' || (allow_underscore && c == '_');
        if !is_ver {
            break ;
        }
        v.push(c);
        j = j + 1;
        proof {
            assert(v@ =~= s@.subrange(st as int, j as int));
        }
    }
    proof {
        lemma_run_len(s@, st as int, j as int, allow_underscore);
    }
    if v.len() == 0 {
        None
    } else {
        Some(v)
    }
}

/// The browser version a user agent denotes: for the first signature
/// pattern present and followed by a non-empty version run, that run.
pub open spec fn spec_detect_browser_version(s: Seq<char>) -> Option<Seq<char>> {
    if spec_version_after(s, "Edg/"@, false) is Some {
        spec_version_after(s, "Edg/"@, false)
    } else if spec_version_after(s, "Edge/"@, false) is Some {
        spec_version_after(s, "Edge/"@, false)
    } else if spec_version_after(s, "OPR/"@, false) is Some {
        spec_version_after(s, "OPR/"@, false)
    } else if spec_version_after(s, "Vivaldi/"@, false) is Some {
        spec_version_after(s, "Vivaldi/"@, false)
    } else if spec_version_after(s, "SamsungBrowser/"@, false) is Some {
        spec_version_after(s, "SamsungBrowser/"@, false)
    } else if spec_version_after(s, "UCBrowser/"@, false) is Some {
        spec_version_after(s, "UCBrowser/"@, false)
    } else if spec_version_after(s, "Chrome/"@, false) is Some {
        spec_version_after(s, "Chrome/"@, false)
    } else if spec_version_after(s, "Firefox/"@, false) is Some {
        spec_version_after(s, "Firefox/"@, false)
    } else if spec_version_after(s, "Version/"@, false) is Some {
        spec_version_after(s, "Version/"@, false)
    } else {
        None
    }
}

/// Detect the browser version from a user agent.
pub fn detect_browser_version(ua: &str) -> (r: Option<String>)
    ensures
        r.deep_view() == spec_detect_browser_version(ua@),
{
    let chars = text::chars_of(ua);
    let s = chars.as_slice();
    let p1 = text::chars_of("Edg/");
    if let Some(v) = version_after(s, p1.as_slice(), false) {
        return Some(text::string_from_chars(v.as_slice()));
    }
    let p2 = text::chars_of("Edge/");
    if let Some(v) = version_after(s, p2.as_slice(), false) {
        return Some(text::string_from_chars(v.as_slice()));
    }
    let p3 = text::chars_of("OPR/");
    if let Some(v) = version_after(s, p3.as_slice(), false) {
        return Some(text::string_from_chars(v.as_slice()));
    }
    let p4 = text::chars_of("Vivaldi/");
    if let Some(v) = version_after(s, p4.as_slice(), false) {
        return Some(text::string_from_chars(v.as_slice()));
    }
    let p5 = text::chars_of("SamsungBrowser/");
    if let Some(v) = version_after(s, p5.as_slice(), false) {
        return Some(text::string_from_chars(v.as_slice()));
    }
    let p6 = text::chars_of("UCBrowser/");
    if let Some(v) = version_after(s, p6.as_slice(), false) {
        return Some(text::string_from_chars(v.as_slice()));
    }
    let p7 = text::chars_of("Chrome/");
    if let Some(v) = version_after(s, p7.as_slice(), false) {
        return Some(text::string_from_chars(v.as_slice()));
    }
    let p8 = text::chars_of("Firefox/");
    if let Some(v) = version_after(s, p8.as_slice(), false) {
        return Some(text::string_from_chars(v.as_slice()));
    }
    let p9 = text::chars_of("Version/");
    if let Some(v) = version_after(s, p9.as_slice(), false) {
        return Some(text::string_from_chars(v.as_slice()));
    }
    None
}

/// Extract the version token after the first occurrence of `prefix` in a
/// user agent: the run of digits, dots and underscores right after it, or
/// `None` when the prefix is absent or the run is empty.
pub fn extract_version_after(ua: &str, prefix: &str) -> (r: Option<String>)
    ensures
        r.deep_view() == spec_version_after(ua@, prefix@, true),
{
    let ua_chars = text::chars_of(ua);
    let prefix_chars = text::chars_of(prefix);
    match version_after(ua_chars.as_slice(), prefix_chars.as_slice(), true) {
        Some(v) => Some(text::string_from_chars(v.as_slice())),
        None => None,
    }
}

/// The operating system a user agent denotes. iOS is checked before macOS
/// because iPhone user agents also contain "Mac OS X".
pub open spec fn spec_detect_os(s: Seq<char>) -> Option<Seq<char>> {
    if has_sub(s, "Windows"@) {
        Some("Windows"@)
    } else if has_sub(s, "iPhone"@) || has_sub(s, "iPad"@) || has_sub(s, "iOS"@) {
        Some("iOS"@)
    } else if has_sub(s, "Mac OS X"@) || has_sub(s, "macOS"@) {
        Some("macOS"@)
    } else if has_sub(s, "Android"@) {
        Some("Android"@)
    } else if has_sub(s, "Linux"@) {
        Some("Linux"@)
    } else if has_sub(s, "CrOS"@) {
        Some("Chrome OS"@)
    } else {
        None
    }
}

/// Detect the operating system from a user agent.
pub fn detect_os(ua: &str) -> (r: Option<String>)
    ensures
        r.deep_view() == spec_detect_os(ua@),
{
    let chars = text::chars_of(ua);
    let s = chars.as_slice();
    let windows = text::chars_of("Windows");
    let iphone = text::chars_of("iPhone");
    let ipad = text::chars_of("iPad");
    let ios = text::chars_of("iOS");
    let macosx = text::chars_of("Mac OS X");
    let macos = text::chars_of("macOS");
    let android = text::chars_of("Android");
    let linux = text::chars_of("Linux");
    let cros = text::chars_of("CrOS");
    if text::contains_sub(s, windows.as_slice()) {
        Some(String::from_str("Windows"))
    } else if text::contains_sub(s, iphone.as_slice()) || text::contains_sub(s, ipad.as_slice())
        || text::contains_sub(s, ios.as_slice()) {
        Some(String::from_str("iOS"))
    } else if text::contains_sub(s, macosx.as_slice()) || text::contains_sub(
        s,
        macos.as_slice(),
    ) {
        Some(String::from_str("macOS"))
    } else if text::contains_sub(s, android.as_slice()) {
        Some(String::from_str("Android"))
    } else if text::contains_sub(s, linux.as_slice()) {
        Some(String::from_str("Linux"))
    } else if text::contains_sub(s, cros.as_slice()) {
        Some(String::from_str("Chrome OS"))
    } else {
        None
    }
}

/// Underscores replaced by dots, the normal form of Apple version tokens.
pub open spec fn spec_underscores_to_dots(v: Seq<char>) -> Seq<char> {
    v.map_values(
        |c: char|
            if c == '_' {
                '.'
            } else {
                c
            },
    )
}

/// Replace underscores by dots in a version token.
fn underscores_to_dots(v: &[char]) -> (r: Vec<char>)
    ensures
        r@ == spec_underscores_to_dots(v@),
{
    let mut r: Vec<char> = Vec::new();
    let mut i: usize = 0;
    while i < v.len()
        invariant
            0 <= i <= v@.len(),
            r@.len() == i,
            forall|j: int| 0 <= j < i ==> r@[j] == spec_underscores_to_dots(v@)[j],
        decreases v@.len() - i,
    {
        let c = v[i];
        if c == '_' {
            r.push('.');
        } else {
            r.push(c);
        }
        i = i + 1;
    }
    proof {
        assert(r@ =~= spec_underscores_to_dots(v@));
    }
    r
}

/// The OS version a user agent denotes, with Apple underscores normalised
/// to dots. The iPhone pattern is checked before the Mac one because
/// iPhone user agents contain both.
pub open spec fn spec_detect_os_version(s: Seq<char>) -> Option<Seq<char>> {
    if has_sub(s, "Windows NT"@) {
        spec_version_after(s, "Windows NT "@, true)
    } else if has_sub(s, "iPhone OS"@) {
        match spec_version_after(s, "iPhone OS "@, true) {
            Some(v) => Some(spec_underscores_to_dots(v)),
            None => None,
        }
    } else if has_sub(s, "Mac OS X"@) {
        match spec_version_after(s, "Mac OS X "@, true) {
            Some(v) => Some(spec_underscores_to_dots(v)),
            None => None,
        }
    } else if has_sub(s, "Android"@) {
        spec_version_after(s, "Android "@, true)
    } else {
        None
    }
}

/// Detect the operating system version from a user agent.
pub fn detect_os_version(ua: &str) -> (r: Option<String>)
    ensures
        r.deep_view() == spec_detect_os_version(ua@),
{
    let chars = text::chars_of(ua);
    let s = chars.as_slice();
    let winnt = text::chars_of("Windows NT");
    let winnt_sp = text::chars_of("Windows NT ");
    let iphone_os = text::chars_of("iPhone OS");
    let iphone_os_sp = text::chars_of("iPhone OS ");
    let macosx = text::chars_of("Mac OS X");
    let macosx_sp = text::chars_of("Mac OS X ");
    let android = text::chars_of("Android");
    let android_sp = text::chars_of("Android ");
    if text::contains_sub(s, winnt.as_slice()) {
        match version_after(s, winnt_sp.as_slice(), true) {
            Some(v) => Some(text::string_from_chars(v.as_slice())),
            None => None,
        }
    } else if text::contains_sub(s, iphone_os.as_slice()) {
        match version_after(s, iphone_os_sp.as_slice(), true) {
            Some(v) => Some(
                text::string_from_chars(underscores_to_dots(v.as_slice()).as_slice()),
            ),
            None => None,
        }
    } else if text::contains_sub(s, macosx.as_slice()) {
        match version_after(s, macosx_sp.as_slice(), true) {
            Some(v) => Some(
                text::string_from_chars(underscores_to_dots(v.as_slice()).as_slice()),
            ),
            None => None,
        }
    } else if text::contains_sub(s, android.as_slice()) {
        match version_after(s, android_sp.as_slice(), true) {
            Some(v) => Some(text::string_from_chars(v.as_slice())),
            None => None,
        }
    } else {
        None
    }
}

/// Parse a user agent into browser, OS and bot information. An empty user
/// agent yields the all-unknown parse.
pub fn parse_user_agent(ua: &str) -> (r: ParsedUserAgent)
    ensures
        ua@.len() == 0 ==> {
            &&& r.browser is None
            &&& r.browser_version is None
            &&& r.os is None
            &&& r.os_version is None
            &&& !r.is_bot
        },
        ua@.len() > 0 ==> {
            &&& r.browser.deep_view() == spec_detect_browser(ua@)
            &&& r.browser_version.deep_view() == spec_detect_browser_version(ua@)
            &&& r.os.deep_view() == spec_detect_os(ua@)
            &&& r.os_version.deep_view() == spec_detect_os_version(ua@)
            &&& r.is_bot == spec_is_bot_lower(lower_of(ua@))
        },
{
    if ua.is_empty() {
        return ParsedUserAgent::default();
    }
    ParsedUserAgent {
        browser: detect_browser(ua),
        browser_version: detect_browser_version(ua),
        os: detect_os(ua),
        os_version: detect_os_version(ua),
        is_bot: is_bot(ua),
    }
}

} // verus!
