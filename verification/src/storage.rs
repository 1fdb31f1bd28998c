//! Partitioned columnar storage paths: the safe-path rule for `site_id`,
//! partition directory construction, file naming, SQL for flushing a
//! partition, and the retention cutoff comparison. Partition layout:
//! `<base>/site_id=<id>/date=<YYYY-MM-DD>/NNNN.parquet`.

use vstd::prelude::*;
use vstd::utf8::encode_utf8;
use crate::dates;
use crate::dates::Date;
use crate::text;

verus! {

/// The safe-path rule: non-empty, at most 256 bytes, and free of `..`,
/// path separators and NUL — safe to interpolate into a filesystem path as
/// a single component.
pub open spec fn spec_safe_path_component(s: Seq<char>) -> bool {
    &&& s.len() > 0
    &&& encode_utf8(s).len() <= 256
    &&& !text::has_sub(s, seq!['.', '.'])
    &&& !s.contains('/')
    &&& !s.contains('\\')
    &&& !s.contains('\u{0}')
}

/// Decide the safe-path rule for a `site_id`.
pub fn is_safe_path_component(s: &str) -> (r: bool)
    ensures
        r == spec_safe_path_component(s@),
{
    if s.is_empty() {
        return false;
    }
    let bytes: &[u8] = s.as_bytes();
    if bytes.len() > 256 {
        return false;
    }
    let chars = text::chars_of(s);
    let mut dd: Vec<char> = Vec::new();
    dd.push('.');
    dd.push('.');
    proof {
        assert(dd@ =~= seq!['.', '.']);
        text::lemma_first_idx(chars@, '/');
        text::lemma_first_idx(chars@, '\\');
        text::lemma_first_idx(chars@, '\u{0}');
    }
    if text::contains_sub(chars.as_slice(), dd.as_slice()) {
        return false;
    }
    if text::find_char(chars.as_slice(), '/').is_some() {
        return false;
    }
    if text::find_char(chars.as_slice(), '\\').is_some() {
        return false;
    }
    if text::find_char(chars.as_slice(), '\u{0}').is_some() {
        return false;
    }
    proof {
        if s@.contains('/') {
            let j = choose|j: int| 0 <= j < s@.len() && s@[j] == '/';
            assert(false);
        }
        if s@.contains('\\') {
            let j = choose|j: int| 0 <= j < s@.len() && s@[j] == '\\';
            assert(false);
        }
        if s@.contains('\u{0}') {
            let j = choose|j: int| 0 <= j < s@.len() && s@[j] == '\u{0}';
            assert(false);
        }
    }
    true
}

/// The partition directory for a site and a date string.
pub open spec fn spec_partition_dir(base: Seq<char>, site: Seq<char>, date: Seq<char>) -> Seq<
    char,
> {
    base + "/site_id="@ + site + "/date="@ + date
}

/// Manages the partitioned columnar file layout below a base directory.
pub struct ParquetStorage {
    pub base_dir: String,
}

impl ParquetStorage {
    /// Create a handle rooted at the given base directory.
    pub fn new(base_dir: &str) -> (r: Self)
        ensures
            r.base_dir@ == base_dir@,
    {
        ParquetStorage { base_dir: String::from_str(base_dir) }
    }

    /// The partition directory path for a site and date. For a `site_id`
    /// that passes the safe-path rule and a date-shaped date, the result is
    /// the base directory extended by exactly two safe path components, so
    /// the partition cannot escape the base directory.
    pub fn partition_dir(&self, site_id: &str, date: &str) -> (r: String)
        ensures
            r@ == spec_partition_dir(self.base_dir@, site_id@, date@),
            spec_safe_path_component(site_id@) && dates::date_shaped(date@) ==> {
                &&& r@ == self.base_dir@ + seq!['/'] + ("site_id="@ + site_id@) + seq!['/'] + (
                "date="@ + date@)
                &&& path_component_ok("site_id="@ + site_id@)
                &&& path_component_ok("date="@ + date@)
            },
    {
        proof {
            if spec_safe_path_component(site_id@) && dates::date_shaped(date@) {
                lemma_partition_dir_safe(self.base_dir@, site_id@, date@);
            }
        }
        let mut r = self.base_dir.clone();
        r.append("/site_id=");
        r.append(site_id);
        r.append("/date=");
        r.append(date);
        r
    }
}

/// The `NNNN.parquet` file name for a partition file number.
pub open spec fn spec_file_name(n: u64) -> Seq<char> {
    text::spec_dec_pad(n, 4) + ".parquet"@
}

/// Render a partition file number as a zero-padded `NNNN.parquet` name.
pub fn file_name(n: u64) -> (r: String)
    ensures
        r@ == spec_file_name(n),
{
    let digits = dates::pad_dec(n, 4);
    let mut r = text::string_from_chars(digits.as_slice());
    r.append(".parquet");
    r
}

/// A single path component, as the filesystem sees it: non-empty, free of
/// separators and NUL, and containing no `..`.
pub open spec fn path_component_ok(c: Seq<char>) -> bool {
    &&& c.len() > 0
    &&& !c.contains('/')
    &&& !c.contains('\\')
    &&& !c.contains('\u{0}')
    &&& !text::has_sub(c, seq!['.', '.'])
}

/// Partition safety: for a `site_id` that passes the safe-path rule and a
/// date-shaped date string, the partition directory is the base directory
/// followed by exactly two single path components, neither of which can
/// traverse upward. The partition therefore stays under the base directory.
pub proof fn lemma_partition_dir_safe(base: Seq<char>, site: Seq<char>, date: Seq<char>)
    requires
        spec_safe_path_component(site),
        dates::date_shaped(date),
    ensures
        spec_partition_dir(base, site, date) =~= base + seq!['/'] + ("site_id="@ + site)
            + seq!['/'] + ("date="@ + date),
        path_component_ok("site_id="@ + site),
        path_component_ok("date="@ + date),
{
    reveal_strlit("/site_id=");
    reveal_strlit("site_id=");
    reveal_strlit("/date=");
    reveal_strlit("date=");
    assert("/site_id="@ =~= seq!['/'] + "site_id="@);
    assert("/date="@ =~= seq!['/'] + "date="@);
    lemma_site_component_ok(site);
    lemma_date_component_ok(date);
}

/// `site_id=<site>` is a single safe path component when `site` passes the
/// safe-path rule.
proof fn lemma_site_component_ok(site: Seq<char>)
    requires
        spec_safe_path_component(site),
    ensures
        path_component_ok("site_id="@ + site),
{
    reveal_strlit("site_id=");
    let p = "site_id="@;
    let c = p + site;
    assert(p.len() == 8);
    assert forall|i: int| 0 <= i < c.len() implies c[i] != '/' && c[i] != '\\' && c[i]
        != '\u{0}' by {
        if i < 8 {
            assert(c[i] == p[i]);
        } else {
            assert(c[i] == site[i - 8]);
            assert(!site.contains('/'));
            assert(!site.contains('\\'));
            assert(!site.contains('\u{0}'));
        }
    }
    assert forall|i: int| !text::matches_at(c, seq!['.', '.'], i) by {
        if 0 <= i && i + 2 <= c.len() {
            if i >= 8 {
                if c[i] == '.' && c[i + 1] == '.' {
                    assert(site[i - 8] == '.');
                    assert(site[i - 8 + 1] == '.');
                    assert(text::matches_at(site, seq!['.', '.'], i - 8));
                    assert(text::has_sub(site, seq!['.', '.']));
                }
            } else {
                assert(c[i] == p[i]);
                assert(p[i] != '.');
            }
        }
    }
    assert(!text::has_sub(c, seq!['.', '.']));
}

/// `date=<date>` is a single safe path component when `date` is
/// date-shaped.
proof fn lemma_date_component_ok(date: Seq<char>)
    requires
        dates::date_shaped(date),
    ensures
        path_component_ok("date="@ + date),
{
    reveal_strlit("date=");
    let p = "date="@;
    let c = p + date;
    assert(p.len() == 5);
    assert forall|i: int| 0 <= i < date.len() implies ('0' <= date[i] && date[i] <= '9') || date[i]
        == '-' by {
        if i < 4 {
            assert(date.subrange(0, 4)[i] == date[i]);
        } else if i == 4 {
        } else if i < 7 {
            assert(date.subrange(5, 7)[i - 5] == date[i]);
        } else if i == 7 {
        } else {
            assert(date.subrange(8, 10)[i - 8] == date[i]);
        }
    }
    assert forall|i: int| 0 <= i < c.len() implies c[i] != '/' && c[i] != '\\' && c[i] != '\u{0}'
        && c[i] != '.' by {
        if i < 5 {
            assert(c[i] == p[i]);
        } else {
            assert(c[i] == date[i - 5]);
        }
    }
    assert forall|i: int| !text::matches_at(c, seq!['.', '.'], i) by {
        if 0 <= i && i + 2 <= c.len() {
            assert(c[i] != '.');
        }
    }
    assert(!text::has_sub(c, seq!['.', '.']));
}

/// Lexicographic order on character sequences, as `str` comparison orders
/// them.
pub open spec fn spec_lex_lt(a: Seq<char>, b: Seq<char>) -> bool
    decreases b.len(),
{
    if b.len() == 0 {
        false
    } else if a.len() == 0 {
        true
    } else if a[0] != b[0] {
        a[0] < b[0]
    } else {
        spec_lex_lt(a.drop_first(), b.drop_first())
    }
}

/// Lexicographic order is transitive.
pub proof fn lemma_lex_lt_trans(a: Seq<char>, b: Seq<char>, c: Seq<char>)
    requires
        spec_lex_lt(a, b),
        spec_lex_lt(b, c),
    ensures
        spec_lex_lt(a, c),
    decreases a.len(),
{
    if a.len() == 0 {
        assert(c.len() > 0);
    } else {
        assert(b.len() > 0);
        assert(c.len() > 0);
        if a[0] == b[0] && b[0] == c[0] {
            lemma_lex_lt_trans(a.drop_first(), b.drop_first(), c.drop_first());
        }
    }
}

/// Lexicographic order is connex: two sequences with neither before the
/// other are equal.
pub proof fn lemma_lex_lt_connex(a: Seq<char>, b: Seq<char>)
    requires
        !spec_lex_lt(a, b),
        !spec_lex_lt(b, a),
    ensures
        a == b,
    decreases a.len(),
{
    if a.len() == 0 {
        assert(b.len() == 0);
        assert(a =~= b);
    } else {
        assert(b.len() > 0);
        assert(a[0] == b[0]);
        lemma_lex_lt_connex(a.drop_first(), b.drop_first());
        assert forall|i: int| 0 <= i < a.len() implies a[i] == b[i] by {
            if i > 0 {
                assert(a.drop_first()[i - 1] == b.drop_first()[i - 1]);
            }
        }
        assert(a =~= b);
    }
}

/// Nothing is lexicographically before itself.
pub proof fn lemma_lex_lt_irrefl(a: Seq<char>)
    ensures
        !spec_lex_lt(a, a),
    decreases a.len(),
{
    if a.len() > 0 {
        lemma_lex_lt_irrefl(a.drop_first());
    }
}

/// On equal-length digit strings, lexicographic order is numeric order.
pub proof fn lemma_lex_numeric(u: Seq<char>, v: Seq<char>)
    requires
        u.len() == v.len(),
        text::all_digits(u),
        text::all_digits(v),
    ensures
        spec_lex_lt(u, v) <==> text::spec_dec_value(u) < text::spec_dec_value(v),
    decreases u.len(),
{
    if u.len() > 0 {
        text::lemma_dec_value_head(u);
        text::lemma_dec_value_head(v);
        let du = u.drop_first();
        let dv = v.drop_first();
        assert(text::all_digits(du) && text::all_digits(dv)) by {
            assert(forall|i: int| 0 <= i < du.len() ==> #[trigger] du[i] == u[i + 1]);
            assert(forall|i: int| 0 <= i < dv.len() ==> #[trigger] dv[i] == v[i + 1]);
        }
        text::lemma_dec_value_bound(du);
        text::lemma_dec_value_bound(dv);
        let p = text::pow10((u.len() - 1) as nat);
        text::lemma_pow10_pos((u.len() - 1) as nat);
        let hu = u[0] as int - 48;
        let hv = v[0] as int - 48;
        if u[0] == v[0] {
            lemma_lex_numeric(du, dv);
        } else if u[0] < v[0] {
            assert(hu < hv);
            assert(hu * p + p <= hv * p) by (nonlinear_arith)
                requires
                    hu + 1 <= hv,
                    p >= 1,
            ;
            assert(text::spec_dec_value(u) < hu * p + p);
            assert(text::spec_dec_value(v) >= hv * p);
        } else {
            assert(hv < hu);
            assert(hv * p + p <= hu * p) by (nonlinear_arith)
                requires
                    hv + 1 <= hu,
                    p >= 1,
            ;
            assert(text::spec_dec_value(v) < hv * p + p);
            assert(text::spec_dec_value(u) >= hu * p);
        }
    }
}

/// Appending behind equal-length prefixes: the comparison is decided by the
/// prefixes unless they are equal, in which case it falls to the suffixes.
pub proof fn lemma_lex_append(a: Seq<char>, b: Seq<char>, x: Seq<char>, y: Seq<char>)
    requires
        a.len() == b.len(),
    ensures
        spec_lex_lt(a + x, b + y) == (if a == b {
            spec_lex_lt(x, y)
        } else {
            spec_lex_lt(a, b)
        }),
    decreases a.len(),
{
    if a.len() == 0 {
        assert(a =~= b);
        assert(a + x =~= x);
        assert(b + y =~= y);
    } else {
        assert((a + x)[0] == a[0]);
        assert((b + y)[0] == b[0]);
        assert((a + x).len() > 0 && (b + y).len() > 0);
        if a[0] != b[0] {
            assert(a != b);
        } else {
            assert((a + x).drop_first() =~= a.drop_first() + x);
            assert((b + y).drop_first() =~= b.drop_first() + y);
            lemma_lex_append(a.drop_first(), b.drop_first(), x, y);
            if a.drop_first() == b.drop_first() {
                assert forall|i: int| 0 <= i < a.len() implies a[i] == b[i] by {
                    if i > 0 {
                        assert(a.drop_first()[i - 1] == b.drop_first()[i - 1]);
                    }
                }
                assert(a =~= b);
            } else {
                assert(a != b) by {
                    if a == b {
                        assert(a.drop_first() =~= b.drop_first());
                    }
                }
            }
        }
    }
}

/// Retention's comparison is sound in general: two valid dates rendered as
/// `YYYY-MM-DD` compare lexicographically exactly as the dates themselves
/// compare, so pruning by rendered name prunes by date.
pub proof fn lemma_format_date_order(a: Date, b: Date)
    requires
        dates::valid_date(a),
        dates::valid_date(b),
    ensures
        spec_lex_lt(dates::spec_format_date(a), dates::spec_format_date(b)) <==> dates::spec_date_lt(
            a,
            b,
        ),
{
    reveal_with_fuel(text::pow10, 5);
    text::lemma_pad_shape(a.year as u64, 4);
    text::lemma_pad_shape(b.year as u64, 4);
    text::lemma_pad_shape(a.month as u64, 2);
    text::lemma_pad_shape(b.month as u64, 2);
    text::lemma_pad_shape(a.day as u64, 2);
    text::lemma_pad_shape(b.day as u64, 2);
    let ya = text::spec_dec_pad(a.year as u64, 4);
    let yb = text::spec_dec_pad(b.year as u64, 4);
    let ma = text::spec_dec_pad(a.month as u64, 2);
    let mb = text::spec_dec_pad(b.month as u64, 2);
    let da = text::spec_dec_pad(a.day as u64, 2);
    let db = text::spec_dec_pad(b.day as u64, 2);
    let ra = seq!['-'] + (ma + (seq!['-'] + da));
    let rb = seq!['-'] + (mb + (seq!['-'] + db));
    assert(dates::spec_format_date(a) =~= ya + ra);
    assert(dates::spec_format_date(b) =~= yb + rb);
    lemma_lex_append(ya, yb, ra, rb);
    lemma_lex_numeric(ya, yb);
    if ya == yb {
        assert(a.year == b.year);
        lemma_lex_append(seq!['-'], seq!['-'], ma + (seq!['-'] + da), mb + (seq!['-'] + db));
        lemma_lex_append(ma, mb, seq!['-'] + da, seq!['-'] + db);
        lemma_lex_numeric(ma, mb);
        if ma == mb {
            assert(a.month == b.month);
            lemma_lex_append(seq!['-'], seq!['-'], da, db);
            lemma_lex_numeric(da, db);
            if da == db {
                assert(a.day == b.day);
                lemma_lex_lt_irrefl(da);
            }
        } else {
            assert(a.month != b.month);
        }
    } else {
        assert(a.year != b.year);
    }
}

/// Equal prefixes do not affect the lexicographic comparison of the rest.
proof fn lemma_lex_lt_skip(a: Seq<char>, b: Seq<char>, i: int)
    requires
        0 <= i <= a.len(),
        i <= b.len(),
        forall|j: int| 0 <= j < i ==> a[j] == b[j],
    ensures
        spec_lex_lt(a, b) == spec_lex_lt(a.skip(i), b.skip(i)),
    decreases i,
{
    if i > 0 {
        assert(a.len() > 0 && b.len() > 0);
        assert(a[0] == b[0]);
        lemma_lex_lt_skip(a.drop_first(), b.drop_first(), i - 1);
        assert(a.drop_first().skip(i - 1) =~= a.skip(i));
        assert(b.drop_first().skip(i - 1) =~= b.skip(i));
    } else {
        assert(a.skip(0) =~= a);
        assert(b.skip(0) =~= b);
    }
}

/// Compare two character slices lexicographically.
pub fn lex_lt(a: &[char], b: &[char]) -> (r: bool)
    ensures
        r == spec_lex_lt(a@, b@),
{
    let mut i: usize = 0;
    loop
        invariant
            0 <= i <= a@.len(),
            i <= b@.len(),
            forall|j: int| 0 <= j < i ==> a@[j] == b@[j],
        ensures
            spec_lex_lt(a@, b@) == ({
                if i < a@.len() && i < b@.len() {
                    a@[i as int] < b@[i as int]
                } else {
                    a@.len() < b@.len()
                }
            }),
            i < a@.len() && i < b@.len() ==> a@[i as int] != b@[i as int],
        decreases a@.len() - i,
    {
        proof {
            lemma_lex_lt_skip(a@, b@, i as int);
        }
        if i >= a.len() || i >= b.len() {
            proof {
                assert(a@.skip(i as int).len() == a@.len() - i);
                assert(b@.skip(i as int).len() == b@.len() - i);
            }
            break ;
        }
        if a[i] != b[i] {
            proof {
                assert(a@.skip(i as int)[0] == a@[i as int]);
                assert(b@.skip(i as int)[0] == b@[i as int]);
            }
            break ;
        }
        i = i + 1;
    }
    if i < a.len() && i < b.len() {
        a[i] < b[i]
    } else {
        a.len() < b.len()
    }
}

/// Whether a `date=YYYY-MM-DD` partition directory name sorts strictly
/// before the cutoff date and is therefore due for removal. Directory names
/// without the `date=` prefix are never removed.
pub open spec fn spec_should_remove_partition(name: Seq<char>, cutoff: Date) -> bool {
    &&& text::has_prefix(name, "date="@)
    &&& spec_lex_lt(name.skip(5), dates::spec_format_date(cutoff))
}

/// Retention prunes by date: the directory name a valid date renders to is
/// removed under a valid cutoff exactly when the date lies before the
/// cutoff.
pub proof fn lemma_should_remove_by_date(d: Date, cutoff: Date)
    requires
        dates::valid_date(d),
        dates::valid_date(cutoff),
    ensures
        spec_should_remove_partition("date="@ + dates::spec_format_date(d), cutoff)
            <==> dates::spec_date_lt(d, cutoff),
{
    reveal_strlit("date=");
    let name = "date="@ + dates::spec_format_date(d);
    assert("date="@.len() == 5);
    dates::lemma_format_date_shaped(d);
    assert(text::has_prefix(name, "date="@)) by {
        assert(forall|k: int| 0 <= k < 5 ==> #[trigger] name[k] == "date="@[k]);
    }
    assert(name.skip(5) =~= dates::spec_format_date(d));
    lemma_format_date_order(d, cutoff);
}

/// Decide whether a partition directory is older than the retention cutoff.
pub fn should_remove_partition(dir_name: &str, cutoff: &Date) -> (r: bool)
    ensures
        r == spec_should_remove_partition(dir_name@, *cutoff),
{
    let chars = text::chars_of(dir_name);
    let prefix = text::chars_of("date=");
    proof {
        reveal_strlit("date=");
    }
    if !text::starts_with_sub(chars.as_slice(), prefix.as_slice()) {
        return false;
    }
    let rest = vstd::slice::slice_subrange(chars.as_slice(), 5, chars.len());
    let cutoff_str = dates::format_date(cutoff);
    let cutoff_chars = text::chars_of(cutoff_str.as_str());
    proof {
        assert(rest@ =~= dir_name@.skip(5));
    }
    lex_lt(rest, cutoff_chars.as_slice())
}

/// The `COPY` statement that writes one partition of the hot tier to a
/// columnar file, with the site escaped for the SQL literal.
pub open spec fn spec_copy_sql(site: Seq<char>, date: Seq<char>, path: Seq<char>) -> Seq<char> {
    "COPY (SELECT * FROM events WHERE site_id = '"@ + text::spec_double_char(site, '\'')
        + "' AND STRFTIME(CAST(timestamp AS DATE), '%Y-%m-%d') = '"@ + date + "') TO '"@ + path
        + "' (FORMAT PARQUET, COMPRESSION ZSTD)"@
}

/// Build the `COPY` statement that persists one partition.
pub fn copy_partition_sql(site_id: &str, date: &str, path: &str) -> (r: String)
    ensures
        r@ == spec_copy_sql(site_id@, date@, path@),
{
    let site_chars = text::chars_of(site_id);
    let escaped = text::double_char(site_chars.as_slice(), '\'');
    let esc_str = text::string_from_chars(escaped.as_slice());
    let mut r = String::from_str("COPY (SELECT * FROM events WHERE site_id = '");
    r.append(esc_str.as_str());
    r.append("' AND STRFTIME(CAST(timestamp AS DATE), '%Y-%m-%d') = '");
    r.append(date);
    r.append("') TO '");
    r.append(path);
    r.append("' (FORMAT PARQUET, COMPRESSION ZSTD)");
    r
}

/// The `DELETE` statement that removes one flushed partition from the hot
/// tier.
pub open spec fn spec_delete_sql(site: Seq<char>, date: Seq<char>) -> Seq<char> {
    "DELETE FROM events WHERE site_id = '"@ + text::spec_double_char(site, '\'')
        + "' AND STRFTIME(CAST(timestamp AS DATE), '%Y-%m-%d') = '"@ + date + "'"@
}

/// Build the `DELETE` statement that clears one flushed partition.
pub fn delete_partition_sql(site_id: &str, date: &str) -> (r: String)
    ensures
        r@ == spec_delete_sql(site_id@, date@),
{
    let site_chars = text::chars_of(site_id);
    let escaped = text::double_char(site_chars.as_slice(), '\'');
    let esc_str = text::string_from_chars(escaped.as_slice());
    let mut r = String::from_str("DELETE FROM events WHERE site_id = '");
    r.append(esc_str.as_str());
    r.append("' AND STRFTIME(CAST(timestamp AS DATE), '%Y-%m-%d') = '");
    r.append(date);
    r.append("'");
    r
}

/// The statement that creates the hot-tier events table.
pub fn create_events_table_sql() -> (r: &'static str)
    ensures
        r@ == "CREATE TABLE IF NOT EXISTS events ( site_id VARCHAR NOT NULL, visitor_id VARCHAR NOT NULL, timestamp TIMESTAMP NOT NULL, event_name VARCHAR NOT NULL, pathname VARCHAR NOT NULL, hostname VARCHAR, referrer VARCHAR, referrer_source VARCHAR, utm_source VARCHAR, utm_medium VARCHAR, utm_campaign VARCHAR, utm_content VARCHAR, utm_term VARCHAR, browser VARCHAR, browser_version VARCHAR, os VARCHAR, os_version VARCHAR, device_type VARCHAR, screen_size VARCHAR, country_code VARCHAR(2), region VARCHAR, city VARCHAR, props VARCHAR, revenue_amount DECIMAL(12,2), revenue_currency VARCHAR(3) )"@,
{
    "CREATE TABLE IF NOT EXISTS events ( site_id VARCHAR NOT NULL, visitor_id VARCHAR NOT NULL, timestamp TIMESTAMP NOT NULL, event_name VARCHAR NOT NULL, pathname VARCHAR NOT NULL, hostname VARCHAR, referrer VARCHAR, referrer_source VARCHAR, utm_source VARCHAR, utm_medium VARCHAR, utm_campaign VARCHAR, utm_content VARCHAR, utm_term VARCHAR, browser VARCHAR, browser_version VARCHAR, os VARCHAR, os_version VARCHAR, device_type VARCHAR, screen_size VARCHAR, country_code VARCHAR(2), region VARCHAR, city VARCHAR, props VARCHAR, revenue_amount DECIMAL(12,2), revenue_currency VARCHAR(3) )"
}

/// The statement that loads the behavioural aggregation extension.
pub fn load_behavioral_extension_sql() -> (r: &'static str)
    ensures
        r@ == "INSTALL behavioral FROM community; LOAD behavioral;"@,
{
    "INSTALL behavioral FROM community; LOAD behavioral;"
}

/// The glob that covers every partition file below the base directory.
pub open spec fn spec_partition_glob(base: Seq<char>) -> Seq<char> {
    base + "/site_id=*/date=*/*.parquet"@
}

/// The statement that creates the two-tier union view: the hot events table
/// unioned with every partition file the glob matches, quotes in the path
/// escaped for the SQL literal.
pub open spec fn spec_union_view_sql(base: Seq<char>) -> Seq<char> {
    "CREATE OR REPLACE VIEW events_all AS SELECT * FROM events UNION ALL SELECT * FROM read_parquet('"@
        + text::spec_double_char(spec_partition_glob(base), '\'')
        + "', union_by_name=true)"@
}

/// Build the union-view statement for a base directory.
pub fn union_view_sql(base_dir: &str) -> (r: String)
    ensures
        r@ == spec_union_view_sql(base_dir@),
{
    let mut glob = String::from_str(base_dir);
    glob.append("/site_id=*/date=*/*.parquet");
    let glob_chars = text::chars_of(glob.as_str());
    let escaped = text::double_char(glob_chars.as_slice(), '\'');
    let mut r = String::from_str(
        "CREATE OR REPLACE VIEW events_all AS SELECT * FROM events UNION ALL SELECT * FROM read_parquet('",
    );
    r.append(text::string_from_chars(escaped.as_slice()).as_str());
    r.append("', union_by_name=true)");
    r
}

/// The fallback view when no partition files exist yet: a passthrough over
/// the hot tier alone.
pub fn passthrough_view_sql() -> (r: &'static str)
    ensures
        r@ == "CREATE OR REPLACE VIEW events_all AS SELECT * FROM events"@,
{
    "CREATE OR REPLACE VIEW events_all AS SELECT * FROM events"
}

/// The statement that lists the hot tier's partitions with their row
/// counts, the flush protocol's first step.
pub fn list_partitions_sql() -> (r: &'static str)
    ensures
        r@ == "SELECT site_id, STRFTIME(CAST(timestamp AS DATE), '%Y-%m-%d') AS d, COUNT(*) AS cnt FROM events GROUP BY site_id, d ORDER BY site_id, d"@,
{
    "SELECT site_id, STRFTIME(CAST(timestamp AS DATE), '%Y-%m-%d') AS d, COUNT(*) AS cnt FROM events GROUP BY site_id, d ORDER BY site_id, d"
}

} // verus!
