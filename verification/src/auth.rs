//! Authentication: Argon2id password hashing, session store, API keys with
//! constant-time validation and scopes, origin and CSRF checks, session
//! cookies, and IP anonymisation for logging.

use vstd::prelude::*;
use vstd::utf8::encode_utf8;
use crate::hashes;
use crate::hashes::{hex_of, sha256_of, is_hex_char};
use crate::ingest::cut_at;
use crate::ingest::strip_scheme;
use crate::kvlist;
use crate::kvlist::{kv_view, spec_find, unique_keys};
use crate::text;
use crate::text::has_prefix;
use argon2::password_hash::PasswordHasher;
use argon2::password_hash::PasswordVerifier;

verus! {

/// Compare two byte strings in constant time: every byte is examined
/// whatever the contents, so the running time does not depend on the
/// position of the first mismatch — only the accumulated difference is
/// tested, once, at the end.
pub fn constant_time_eq(a: &[u8], b: &[u8]) -> (r: bool)
    ensures
        r == (a@ == b@),
{
    if a.len() != b.len() {
        proof {
            assert(a@ != b@);
        }
        return false;
    }
    let mut acc: u8 = 0;
    let mut i: usize = 0;
    while i < a.len()
        invariant
            0 <= i <= a@.len(),
            a@.len() == b@.len(),
            (acc == 0) <==> (forall|j: int| 0 <= j < i ==> a@[j] == b@[j]),
        decreases a@.len() - i,
    {
        let x = a[i];
        let y = b[i];
        let d: u8 = x ^ y;
        let new_acc: u8 = acc | d;
        proof {
            assert(((x ^ y) == 0) == (x == y)) by (bit_vector);
            assert(((acc | d) == 0) == (acc == 0 && d == 0)) by (bit_vector);
        }
        acc = new_acc;
        i = i + 1;
    }
    if acc == 0 {
        proof {
            assert(a@ =~= b@);
        }
        true
    } else {
        proof {
            assert(exists|j: int| 0 <= j < a@.len() && a@[j] != b@[j]);
        }
        false
    }
}

/// Equal UTF-8 encodings come from equal character sequences.
pub proof fn lemma_utf8_injective(a: Seq<char>, b: Seq<char>)
    requires
        encode_utf8(a) == encode_utf8(b),
    ensures
        a == b,
{
    vstd::utf8::encode_utf8_decode_utf8(a);
    vstd::utf8::encode_utf8_decode_utf8(b);
}

/// The origin allow-list check: with no allow-list every origin passes; a
/// missing origin passes; otherwise the origin's authority must equal an
/// allowed site exactly or extend it with a port. A mere prefix (such as a
/// longer domain) does not match.
pub open spec fn spec_validate_origin(origin: Option<Seq<char>>, allowed: Seq<Seq<char>>) -> bool {
    if allowed.len() == 0 {
        true
    } else {
        match origin {
            None => true,
            Some(o) => {
                let authority = cut_at(strip_scheme(o), '/');
                exists|i: int|
                    0 <= i < allowed.len() && (authority == #[trigger] allowed[i] || has_prefix(
                        authority,
                        allowed[i] + seq![':'],
                    ))
            },
        }
    }
}

/// Validate a request origin against the configured site allow-list.
pub fn validate_origin(origin: Option<&str>, allowed_sites: &[String]) -> (r: bool)
    ensures
        r == spec_validate_origin(
            match origin {
                Some(o) => Some(o@),
                None => None,
            },
            allowed_sites.deep_view(),
        ),
{
    if allowed_sites.len() == 0 {
        return true;
    }
    let o = match origin {
        Some(o) => o,
        None => {
            return true;
        },
    };
    let chars = text::chars_of(o);
    let stripped = crate::ingest::strip_scheme_exec(chars.as_slice());
    let authority = crate::ingest::cut_at_exec(stripped.as_slice(), '/');
    let mut i: usize = 0;
    while i < allowed_sites.len()
        invariant
            0 <= i <= allowed_sites@.len(),
            origin == Some(o),
            authority@ == cut_at(strip_scheme(o@), '/'),
            forall|j: int|
                0 <= j < i ==> !(authority@ == #[trigger] allowed_sites.deep_view()[j]
                    || has_prefix(authority@, allowed_sites.deep_view()[j] + seq![':'])),
        decreases allowed_sites@.len() - i,
    {
        let site = &allowed_sites[i];
        let mut needle = text::chars_of(site.as_str());
        proof {
            assert(allowed_sites.deep_view()[i as int] == site@);
        }
        if text::slice_eq_str(authority.as_slice(), site.as_str()) {
            proof {
                assert(authority@ == allowed_sites.deep_view()[i as int]);
            }
            return true;
        }
        needle.push(':');
        proof {
            assert(needle@ =~= site@ + seq![':']);
        }
        if text::starts_with_sub(authority.as_slice(), needle.as_slice()) {
            proof {
                assert(has_prefix(authority@, allowed_sites.deep_view()[i as int] + seq![':']));
            }
            return true;
        }
        i = i + 1;
    }
    false
}

/// The CSRF check: with no configured dashboard origin everything passes;
/// a present `Origin` must equal it exactly; failing that, a present
/// `Referer` must start with it; with neither header the request passes
/// (non-browser clients).
pub open spec fn spec_csrf_ok(
    origin: Option<Seq<char>>,
    referer: Option<Seq<char>>,
    expected: Option<Seq<char>>,
) -> bool {
    match expected {
        None => true,
        Some(e) => match origin {
            Some(o) => o == e,
            None => match referer {
                Some(r) => has_prefix(r, e),
                None => true,
            },
        },
    }
}

/// Validate the request's Origin or Referer against the configured
/// dashboard origin.
pub fn validate_csrf_origin(
    origin: Option<&str>,
    referer: Option<&str>,
    dashboard_origin: Option<&String>,
) -> (r: bool)
    ensures
        r == spec_csrf_ok(
            match origin {
                Some(o) => Some(o@),
                None => None,
            },
            match referer {
                Some(x) => Some(x@),
                None => None,
            },
            match dashboard_origin {
                Some(e) => Some(e@),
                None => None,
            },
        ),
{
    let expected = match dashboard_origin {
        Some(e) => e,
        None => {
            return true;
        },
    };
    if let Some(o) = origin {
        let oc = text::chars_of(o);
        return text::slice_eq_str(oc.as_slice(), expected.as_str());
    }
    if let Some(rf) = referer {
        let rc = text::chars_of(rf);
        let ec = text::chars_of(expected.as_str());
        return text::starts_with_sub(rc.as_slice(), ec.as_slice());
    }
    true
}

/// The session cookie for a token: `HttpOnly`, `SameSite=Strict`, path
/// `/`, a max age of the session TTL, and `Secure` exactly when the
/// dashboard origin uses https.
pub open spec fn spec_session_cookie(
    token: Seq<char>,
    ttl_secs: u64,
    dashboard_origin: Option<Seq<char>>,
) -> Seq<char> {
    let base = "mm_session="@ + token + "; HttpOnly; SameSite=Strict; Path=/; Max-Age="@
        + text::spec_dec(ttl_secs);
    if (match dashboard_origin {
        Some(o) => has_prefix(o, "https://"@),
        None => false,
    }) {
        base + "; Secure"@
    } else {
        base
    }
}

/// Build the `Set-Cookie` value for a session token.
pub fn build_session_cookie(token: &str, ttl_secs: u64, dashboard_origin: Option<&String>) -> (r:
    String)
    ensures
        r@ == spec_session_cookie(
            token@,
            ttl_secs,
            match dashboard_origin {
                Some(o) => Some(o@),
                None => None,
            },
        ),
{
    let mut cookie = String::from_str("mm_session=");
    cookie.append(token);
    cookie.append("; HttpOnly; SameSite=Strict; Path=/; Max-Age=");
    let age = text::string_from_chars(text::dec_chars(ttl_secs).as_slice());
    cookie.append(age.as_str());
    let secure = match dashboard_origin {
        Some(o) => {
            let oc = text::chars_of(o.as_str());
            let https = text::chars_of("https://");
            text::starts_with_sub(oc.as_slice(), https.as_slice())
        },
        None => false,
    };
    if secure {
        cookie.append("; Secure");
    }
    cookie
}

/// An anonymised IP for logging: an IPv6 address keeps only its first
/// group, an IPv4 address keeps its first three octets, and anything else
/// becomes fully masked.
pub open spec fn spec_anonymize_ip(ip: Seq<char>) -> Seq<char> {
    if ip.contains(':') {
        text::spec_split(ip, ':')[0] + ":..."@
    } else {
        let parts = text::spec_split(ip, '.');
        if parts.len() == 4 {
            parts[0] + seq!['.'] + parts[1] + seq!['.'] + parts[2] + ".x"@
        } else {
            "?.?.?.x"@
        }
    }
}

/// Anonymise an IP address for logging.
pub fn anonymize_ip(ip: &str) -> (r: String)
    ensures
        r@ == spec_anonymize_ip(ip@),
{
    let chars = text::chars_of(ip);
    proof {
        text::lemma_first_idx(ip@, ':');
        if ip@.contains(':') {
            let j = choose|j: int| 0 <= j < ip@.len() && ip@[j] == ':';
            assert(text::first_idx(ip@, ':') != -1);
        }
        if text::first_idx(ip@, ':') != -1 {
            assert(ip@[text::first_idx(ip@, ':')] == ':');
            assert(ip@.contains(':'));
        }
    }
    if text::find_char(chars.as_slice(), ':').is_some() {
        let parts = text::split_chars(chars.as_slice(), ':');
        proof {
            assert(parts@[0]@ == parts.deep_view()[0]);
        }
        let mut r = text::string_from_chars(parts[0].as_slice());
        r.append(":...");
        r
    } else {
        let parts = text::split_chars(chars.as_slice(), '.');
        if parts.len() == 4 {
            proof {
                assert(parts@[0]@ == parts.deep_view()[0]);
                assert(parts@[1]@ == parts.deep_view()[1]);
                assert(parts@[2]@ == parts.deep_view()[2]);
            }
            let mut r = text::string_from_chars(parts[0].as_slice());
            r.append(".");
            r.append(text::string_from_chars(parts[1].as_slice()).as_str());
            r.append(".");
            r.append(text::string_from_chars(parts[2].as_slice()).as_str());
            r.append(".x");
            proof {
                reveal_strlit(".");
                assert("."@ =~= seq!['.']);
                assert(r@ =~= spec_anonymize_ip(ip@));
            }
            r
        } else {
            String::from_str("?.?.?.x")
        }
    }
}

/// The session token in a Cookie header: the first `;`-separated part that,
/// trimmed, starts with `mm_session=` and carries a non-empty token.
pub open spec fn spec_session_token(parts: Seq<Seq<char>>) -> Option<Seq<char>>
    decreases parts.len(),
{
    if parts.len() == 0 {
        None
    } else {
        let t = text::spec_trim(parts[0]);
        if has_prefix(t, "mm_session="@) && t.len() > 11 {
            Some(t.skip(11))
        } else {
            spec_session_token(parts.drop_first())
        }
    }
}

/// Extract the session token from a Cookie header value.
pub fn extract_session_token(cookie: &str) -> (r: Option<String>)
    ensures
        match r {
            Some(t) => spec_session_token(text::spec_split(cookie@, ';')) == Some(t@),
            None => spec_session_token(text::spec_split(cookie@, ';')) is None,
        },
{
    let chars = text::chars_of(cookie);
    let parts = text::split_chars(chars.as_slice(), ';');
    let ghost gparts = text::spec_split(cookie@, ';');
    let prefix = text::chars_of("mm_session=");
    proof {
        reveal_strlit("mm_session=");
        assert(gparts.skip(0) =~= gparts);
    }
    let mut i: usize = 0;
    while i < parts.len()
        invariant
            0 <= i <= parts@.len(),
            gparts == text::spec_split(cookie@, ';'),
            parts.deep_view() == gparts,
            prefix@ == "mm_session="@,
            prefix@.len() == 11,
            spec_session_token(gparts) == spec_session_token(gparts.skip(i as int)),
        decreases parts@.len() - i,
    {
        let t = text::trim_slice(parts[i].as_slice());
        proof {
            assert(parts@[i as int]@ == gparts[i as int]);
            assert(gparts.skip(i as int)[0] == gparts[i as int]);
            assert(gparts.skip(i as int).drop_first() =~= gparts.skip(i + 1));
        }
        if text::starts_with_sub(t.as_slice(), prefix.as_slice()) && t.len() > 11 {
            let token = vstd::slice::slice_subrange(t.as_slice(), 11, t.len());
            proof {
                assert(token@ =~= text::spec_trim(gparts[i as int]).skip(11));
            }
            return Some(text::string_from_chars(token));
        }
        i = i + 1;
    }
    proof {
        assert(gparts.skip(gparts.len() as int).len() == 0);
    }
    None
}

/// Whether Argon2 verification of `password` against the encoded hash
/// string succeeds: a function of the pair alone.
pub uninterp spec fn argon2_verifies(password: Seq<u8>, hash: Seq<char>) -> bool;

/// Relies on `Argon2::hash_password` of the argon2 crate: Argon2id with a
/// random salt, returned in PHC string form; the crate's verifier accepts
/// the password it was produced from.
#[verifier::external_body]
fn argon2_hash(password: &[u8]) -> (r: Option<String>)
    ensures
        r matches Some(h) ==> argon2_verifies(password@, h@),
{
    let argon2 = argon2::Argon2::default();
    match argon2.hash_password(password) {
        Ok(h) => Some(h.to_string()),
        Err(_) => None,
    }
}

/// Relies on `Argon2::verify_password` of the argon2 crate: verification
/// is a function of the password and the encoded hash string alone.
#[verifier::external_body]
fn argon2_verify(password: &[u8], hash: &str) -> (r: bool)
    ensures
        r == argon2_verifies(password@, hash@),
{
    let argon2 = argon2::Argon2::default();
    argon2.verify_password(password, hash).is_ok()
}

/// The minimum plaintext length rule for a new admin password: at least
/// eight bytes.
pub fn password_long_enough(password: &str) -> (r: bool)
    ensures
        r == (encode_utf8(password@).len() >= 8),
{
    password.as_bytes().len() >= 8
}

/// Hash a password with Argon2id and a random salt. Verifying the same
/// password against the returned hash succeeds.
pub fn hash_password(password: &str) -> (r: Option<String>)
    ensures
        r matches Some(h) ==> argon2_verifies(encode_utf8(password@), h@),
{
    argon2_hash(password.as_bytes())
}

/// Verify a password against an Argon2id hash string.
pub fn verify_password(password: &str, hash: &str) -> (r: bool)
    ensures
        r == argon2_verifies(encode_utf8(password@), hash@),
{
    argon2_verify(password.as_bytes(), hash)
}

/// Generate a session token: 32 cryptographically random bytes as 64 hex
/// characters.
pub fn generate_session_token() -> (r: String)
    ensures
        r@.len() == 64,
        forall|i: int| 0 <= i < r@.len() ==> is_hex_char(#[trigger] r@[i]),
{
    let bytes = hashes::random_bytes_32();
    proof {
        hashes::lemma_hex_of_chars(bytes@);
    }
    hashes::hex_encode(bytes.as_slice())
}

/// Generate an API key: the `mm_` prefix followed by 64 random hex
/// characters.
pub fn generate_api_key() -> (r: String)
    ensures
        r@.len() == 67,
        has_prefix(r@, "mm_"@),
        forall|i: int| 3 <= i < r@.len() ==> is_hex_char(#[trigger] r@[i]),
{
    let bytes = hashes::random_bytes_32();
    proof {
        hashes::lemma_hex_of_chars(bytes@);
        reveal_strlit("mm_");
    }
    let mut r = String::from_str("mm_");
    r.append(hashes::hex_encode(bytes.as_slice()).as_str());
    r
}

/// The storage form of an API key: the hex SHA-256 of its plaintext.
pub open spec fn spec_key_hash(key: Seq<char>) -> Seq<char> {
    hex_of(sha256_of(encode_utf8(key)))
}

/// Hash an API key for storage at rest.
pub fn hash_api_key(key: &str) -> (r: String)
    ensures
        r@ == spec_key_hash(key@),
        r@.len() == 64,
{
    let digest = hashes::sha256(key.as_bytes());
    proof {
        hashes::lemma_hex_of_chars(digest@);
    }
    hashes::hex_encode(digest.as_slice())
}

/// The authorisation class of an API key.
#[derive(Debug, Clone, Copy, PartialEq, Eq, Structural)]
pub enum ApiKeyScope {
    /// Read-only access to stats queries.
    ReadOnly,
    /// Full admin access.
    Admin,
}

/// Stored API key metadata. The plaintext is never stored.
#[derive(Debug)]
pub struct StoredApiKey {
    pub key_hash: String,
    pub name: String,
    pub scope: ApiKeyScope,
    pub created_at: crate::ingest::Timestamp,
    pub revoked: bool,
}

/// The scope of the first live key whose stored hash is `h`.
pub open spec fn spec_validate_key(keys: Seq<StoredApiKey>, h: Seq<char>) -> Option<ApiKeyScope>
    decreases keys.len(),
{
    if keys.len() == 0 {
        None
    } else if keys[0].key_hash@ == h && !keys[0].revoked {
        Some(keys[0].scope)
    } else {
        spec_validate_key(keys.drop_first(), h)
    }
}

/// Index of the first key with stored hash `h`, revoked or not.
pub open spec fn spec_key_hash_idx(keys: Seq<StoredApiKey>, h: Seq<char>) -> int
    decreases keys.len(),
{
    if keys.len() == 0 {
        -1
    } else if keys[0].key_hash@ == h {
        0
    } else {
        let r = spec_key_hash_idx(keys.drop_first(), h);
        if r < 0 {
            -1
        } else {
            r + 1
        }
    }
}

/// `keys` without its revoked entries.
pub open spec fn spec_live_keys(keys: Seq<StoredApiKey>) -> Seq<StoredApiKey>
    decreases keys.len(),
{
    if keys.len() == 0 {
        Seq::empty()
    } else {
        (if keys[0].revoked {
            Seq::<StoredApiKey>::empty()
        } else {
            seq![keys[0]]
        }) + spec_live_keys(keys.drop_first())
    }
}

/// The API key store: a list of hashed keys with scopes.
pub struct ApiKeyStore {
    pub keys: Vec<StoredApiKey>,
}

impl ApiKeyStore {
    /// Create an empty store.
    pub fn new() -> (r: Self)
        ensures
            r.keys@.len() == 0,
    {
        ApiKeyStore { keys: Vec::new() }
    }

    /// Store a new key, hashed; returns the hash.
    pub fn add_key(
        &mut self,
        name: &str,
        plaintext_key: &str,
        scope: ApiKeyScope,
        now: crate::ingest::Timestamp,
    ) -> (r: String)
        ensures
            r@ == spec_key_hash(plaintext_key@),
            final(self).keys@.len() == old(self).keys@.len() + 1,
            final(self).keys@.subrange(0, old(self).keys@.len() as int) == old(self).keys@,
            ({
                let k = final(self).keys@.last();
                &&& k.key_hash@ == spec_key_hash(plaintext_key@)
                &&& k.name@ == name@
                &&& k.scope == scope
                &&& k.created_at == now
                &&& !k.revoked
            }),
    {
        let key_hash = hash_api_key(plaintext_key);
        let stored = StoredApiKey {
            key_hash: key_hash.clone(),
            name: String::from_str(name),
            scope,
            created_at: now,
            revoked: false,
        };
        self.keys.push(stored);
        proof {
            assert(self.keys@.subrange(0, old(self).keys@.len() as int) =~= old(self).keys@);
        }
        key_hash
    }

    /// Validate a plaintext key: hash it and compare against every stored
    /// hash in constant time; the scope of the first live match.
    pub fn validate_key(&self, plaintext_key: &str) -> (r: Option<ApiKeyScope>)
        ensures
            r == spec_validate_key(self.keys@, spec_key_hash(plaintext_key@)),
    {
        let key_hash = hash_api_key(plaintext_key);
        let ghost h = spec_key_hash(plaintext_key@);
        proof {
            assert(self.keys@.skip(0) =~= self.keys@);
        }
        let mut i: usize = 0;
        while i < self.keys.len()
            invariant
                0 <= i <= self.keys@.len(),
                h == spec_key_hash(plaintext_key@),
                key_hash@ == h,
                spec_validate_key(self.keys@, h) == spec_validate_key(
                    self.keys@.skip(i as int),
                    h,
                ),
            decreases self.keys@.len() - i,
        {
            let k = &self.keys[i];
            proof {
                assert(self.keys@.skip(i as int)[0] == self.keys@[i as int]);
                assert(self.keys@.skip(i as int).drop_first() =~= self.keys@.skip(i + 1));
            }
            let matches = constant_time_eq(k.key_hash.as_str().as_bytes(), key_hash.as_str().as_bytes());
            proof {
                if encode_utf8(k.key_hash@) == encode_utf8(h) {
                    lemma_utf8_injective(k.key_hash@, h);
                }
            }
            if matches && !k.revoked {
                return Some(k.scope);
            }
            i = i + 1;
        }
        None
    }

    /// Revoke the first key stored under the given hash. Returns whether a
    /// key was found.
    pub fn revoke_key(&mut self, key_hash: &str) -> (r: bool)
        ensures
            ({
                let i = spec_key_hash_idx(old(self).keys@, key_hash@);
                if i < 0 {
                    !r && final(self).keys@ == old(self).keys@
                } else {
                    &&& r
                    &&& final(self).keys@.len() == old(self).keys@.len()
                    &&& forall|j: int|
                        0 <= j < old(self).keys@.len() && j != i ==> final(self).keys@[j] == old(
                            self,
                        ).keys@[j]
                    &&& final(self).keys@[i].revoked
                    &&& final(self).keys@[i].key_hash == old(self).keys@[i].key_hash
                    &&& final(self).keys@[i].name == old(self).keys@[i].name
                    &&& final(self).keys@[i].scope == old(self).keys@[i].scope
                    &&& final(self).keys@[i].created_at == old(self).keys@[i].created_at
                }
            }),
    {
        proof {
            lemma_key_hash_idx(self.keys@, key_hash@);
        }
        let mut i: usize = 0;
        while i < self.keys.len()
            invariant
                0 <= i <= self.keys@.len(),
                self.keys@ == old(self).keys@,
                forall|j: int| 0 <= j < i ==> (#[trigger] self.keys@[j]).key_hash@ != key_hash@,
                spec_key_hash_idx(old(self).keys@, key_hash@) == -1 ==> (forall|j: int|
                    0 <= j < self.keys@.len() ==> (#[trigger] self.keys@[j]).key_hash@
                        != key_hash@),
                spec_key_hash_idx(old(self).keys@, key_hash@) != -1 ==> {
                    let x = spec_key_hash_idx(old(self).keys@, key_hash@);
                    &&& 0 <= x < self.keys@.len()
                    &&& self.keys@[x].key_hash@ == key_hash@
                    &&& forall|j: int|
                        0 <= j < x ==> (#[trigger] self.keys@[j]).key_hash@ != key_hash@
                },
            decreases self.keys@.len() - i,
        {
            let kc = text::chars_of(self.keys[i].key_hash.as_str());
            if text::slice_eq_str(kc.as_slice(), key_hash) {
                let name = self.keys[i].name.clone();
                let hash = self.keys[i].key_hash.clone();
                let scope = self.keys[i].scope;
                let created_at = self.keys[i].created_at;
                let updated = StoredApiKey {
                    key_hash: hash,
                    name,
                    scope,
                    created_at,
                    revoked: true,
                };
                self.keys.remove(i);
                self.keys.insert(i, updated);
                return true;
            }
            i = i + 1;
        }
        false
    }

    /// List the stored keys (never the plaintext).
    pub fn list_keys(&self) -> (r: Vec<StoredApiKey>)
        ensures
            r@.len() == self.keys@.len(),
            forall|i: int| 0 <= i < r@.len() ==> #[trigger] r@[i] == self.keys@[i],
    {
        let mut r: Vec<StoredApiKey> = Vec::new();
        let mut i: usize = 0;
        while i < self.keys.len()
            invariant
                0 <= i <= self.keys@.len(),
                r@.len() == i,
                forall|j: int| 0 <= j < i ==> #[trigger] r@[j] == self.keys@[j],
            decreases self.keys@.len() - i,
        {
            let k = &self.keys[i];
            let copy = StoredApiKey {
                key_hash: k.key_hash.clone(),
                name: k.name.clone(),
                scope: k.scope,
                created_at: k.created_at,
                revoked: k.revoked,
            };
            r.push(copy);
            proof {
                assert(r@[i as int] == self.keys@[i as int]);
            }
            i = i + 1;
        }
        r
    }

    /// Drop every revoked key.
    pub fn cleanup_revoked(&mut self)
        ensures
            final(self).keys@ == spec_live_keys(old(self).keys@),
    {
        let mut out: Vec<StoredApiKey> = Vec::new();
        let ghost orig = self.keys@;
        loop
            invariant
                spec_live_keys(orig) == out@ + spec_live_keys(self.keys@),
            ensures
                self.keys@.len() == 0,
                spec_live_keys(orig) == out@ + spec_live_keys(self.keys@),
            decreases self.keys@.len(),
        {
            if self.keys.len() == 0 {
                break ;
            }
            let ghost prev = self.keys@;
            let k = self.keys.remove(0);
            proof {
                assert(self.keys@ =~= prev.drop_first());
                assert(k == prev[0]);
            }
            if !k.revoked {
                out.push(k);
            }
            proof {
                assert(spec_live_keys(orig) =~= out@ + spec_live_keys(self.keys@));
            }
        }
        proof {
            assert(spec_live_keys(self.keys@) =~= Seq::<StoredApiKey>::empty());
            assert(spec_live_keys(orig) =~= out@);
        }
        self.keys = out;
    }
}

/// The defining properties of `spec_key_hash_idx`.
proof fn lemma_key_hash_idx(keys: Seq<StoredApiKey>, h: Seq<char>)
    ensures
        spec_key_hash_idx(keys, h) == -1 ==> (forall|j: int|
            0 <= j < keys.len() ==> (#[trigger] keys[j]).key_hash@ != h),
        spec_key_hash_idx(keys, h) != -1 ==> {
            let i = spec_key_hash_idx(keys, h);
            &&& 0 <= i < keys.len()
            &&& keys[i].key_hash@ == h
            &&& forall|j: int| 0 <= j < i ==> (#[trigger] keys[j]).key_hash@ != h
        },
    decreases keys.len(),
{
    if keys.len() > 0 && keys[0].key_hash@ != h {
        let t = keys.drop_first();
        lemma_key_hash_idx(t, h);
        let r = spec_key_hash_idx(t, h);
        if r < 0 {
            assert forall|j: int| 0 <= j < keys.len() implies (#[trigger] keys[j]).key_hash@
                != h by {
                if j >= 1 {
                    assert(t[j - 1].key_hash@ != h);
                    assert(t[j - 1] == keys[j]);
                }
            }
        } else {
            assert(keys[r + 1] == t[r]);
            assert forall|j: int| 0 <= j < r + 1 implies (#[trigger] keys[j]).key_hash@ != h by {
                if j >= 1 {
                    assert(t[j - 1].key_hash@ != h);
                    assert(t[j - 1] == keys[j]);
                }
            }
        }
    }
}


/// One live session: the user it belongs to and when it expires.
pub struct SessionEntry {
    pub username: String,
    pub expires_at_ms: u64,
}

/// The session store: a map from session token to session entry.
pub struct SessionStore {
    pub sessions: Vec<(String, SessionEntry)>,
    pub ttl_secs: u64,
}

/// A session pair that is still live at `now`.
pub open spec fn session_live(now_ms: u64) -> spec_fn((Seq<char>, SessionEntry)) -> bool {
    |p: (Seq<char>, SessionEntry)| p.1.expires_at_ms > now_ms
}

impl SessionStore {
    /// The model of the store: token view to entry.
    pub open spec fn sview(&self) -> Seq<(Seq<char>, SessionEntry)> {
        kv_view(self.sessions@)
    }

    /// Well-formedness: tokens are unique.
    pub open spec fn wf(&self) -> bool {
        unique_keys(self.sview())
    }

    /// Create an empty store with the given session TTL.
    pub fn new(ttl_secs: u64) -> (r: Self)
        ensures
            r.wf(),
            r.sview().len() == 0,
            r.ttl_secs == ttl_secs,
    {
        let r = SessionStore { sessions: Vec::new(), ttl_secs };
        proof {
            assert(r.sview() =~= Seq::<(Seq<char>, SessionEntry)>::empty());
        }
        r
    }

    /// The session TTL in seconds.
    pub fn ttl_secs(&self) -> (r: u64)
        ensures
            r == self.ttl_secs,
    {
        self.ttl_secs
    }

    /// Create a session for a user at time `now_ms`: a fresh random token
    /// bound to the user, expiring one TTL later.
    pub fn create_session_at(&mut self, username: &str, now_ms: u64) -> (r: String)
        requires
            old(self).wf(),
        ensures
            final(self).wf(),
            final(self).ttl_secs == old(self).ttl_secs,
            r@.len() == 64,
            forall|i: int| 0 <= i < r@.len() ==> is_hex_char(#[trigger] r@[i]),
            ({
                let e = spec_find(final(self).sview(), r@);
                e matches Some(en) && en.username@ == username@ && en.expires_at_ms
                    == crate::clock::spec_expiry(now_ms, old(self).ttl_secs)
            }),
            forall|k: Seq<char>|
                k != r@ ==> #[trigger] spec_find(final(self).sview(), k) == spec_find(
                    old(self).sview(),
                    k,
                ),
    {
        let token = generate_session_token();
        let entry = SessionEntry {
            username: String::from_str(username),
            expires_at_ms: crate::clock::expiry(now_ms, self.ttl_secs),
        };
        let ghost before = self.sview();
        let ghost ge = entry;
        kvlist::kv_set(&mut self.sessions, token.as_str(), entry);
        proof {
            kvlist::lemma_insert_find(before, token@, ge, token@);
            assert forall|k: Seq<char>| k != token@ implies #[trigger] spec_find(
                self.sview(),
                k,
            ) == spec_find(before, k) by {
                kvlist::lemma_insert_find(before, token@, ge, k);
            }
        }
        token
    }

    /// Create a session for a user at the current time.
    pub fn create_session(&mut self, username: &str) -> (r: String)
        requires
            old(self).wf(),
        ensures
            final(self).wf(),
            final(self).ttl_secs == old(self).ttl_secs,
            r@.len() == 64,
            forall|i: int| 0 <= i < r@.len() ==> is_hex_char(#[trigger] r@[i]),
            ({
                let e = spec_find(final(self).sview(), r@);
                e matches Some(en) && en.username@ == username@
            }),
            forall|k: Seq<char>|
                k != r@ ==> #[trigger] spec_find(final(self).sview(), k) == spec_find(
                    old(self).sview(),
                    k,
                ),
    {
        let now = crate::clock::now_millis();
        self.create_session_at(username, now)
    }

    /// Validate a session token at time `now_ms`: the username when live;
    /// an expired entry is deleted on the way.
    pub fn validate_session_at(&mut self, token: &str, now_ms: u64) -> (r: Option<String>)
        requires
            old(self).wf(),
        ensures
            final(self).wf(),
            final(self).ttl_secs == old(self).ttl_secs,
            match spec_find(old(self).sview(), token@) {
                Some(e) => {
                    if e.expires_at_ms > now_ms {
                        (r matches Some(u) && u@ == e.username@) && final(self).sview() == old(
                            self,
                        ).sview()
                    } else {
                        r is None && final(self).sview() == kvlist::spec_remove(
                            old(self).sview(),
                            token@,
                        )
                    }
                },
                None => r is None && final(self).sview() == old(self).sview(),
            },
    {
        let found: Option<(String, u64)> = match kvlist::kv_get(&self.sessions, token) {
            Some(e) => Some((e.username.clone(), e.expires_at_ms)),
            None => None,
        };
        match found {
            Some((username, expires_at_ms)) => {
                if expires_at_ms > now_ms {
                    Some(username)
                } else {
                    let ghost before = self.sview();
                    kvlist::kv_remove(&mut self.sessions, token);
                    proof {
                        kvlist::lemma_remove_find(before, token@, token@);
                    }
                    None
                }
            },
            None => None,
        }
    }

    /// Validate a session token against the current time.
    pub fn validate_session(&mut self, token: &str) -> (r: Option<String>)
        requires
            old(self).wf(),
        ensures
            final(self).wf(),
            final(self).ttl_secs == old(self).ttl_secs,
            r matches Some(u) ==> spec_find(old(self).sview(), token@) matches Some(e)
                && e.username@ == u@,
            forall|k: Seq<char>|
                k != token@ ==> #[trigger] spec_find(final(self).sview(), k) == spec_find(
                    old(self).sview(),
                    k,
                ),
    {
        let now = crate::clock::now_millis();
        let r = self.validate_session_at(token, now);
        proof {
            if spec_find(old(self).sview(), token@) matches Some(e) && !(e.expires_at_ms > now) {
                assert forall|k: Seq<char>| k != token@ implies #[trigger] spec_find(
                    self.sview(),
                    k,
                ) == spec_find(old(self).sview(), k) by {
                    kvlist::lemma_remove_find(old(self).sview(), token@, k);
                }
            }
        }
        r
    }

    /// Remove a session (logout).
    pub fn remove_session(&mut self, token: &str)
        requires
            old(self).wf(),
        ensures
            final(self).wf(),
            final(self).ttl_secs == old(self).ttl_secs,
            final(self).sview() == kvlist::spec_remove(old(self).sview(), token@),
            spec_find(final(self).sview(), token@) is None,
    {
        let ghost before = self.sview();
        kvlist::kv_remove(&mut self.sessions, token);
        proof {
            kvlist::lemma_remove_find(before, token@, token@);
        }
    }

    /// Drop every session that has expired by `now_ms`.
    pub fn cleanup_expired_at(&mut self, now_ms: u64)
        requires
            old(self).wf(),
        ensures
            final(self).wf(),
            final(self).ttl_secs == old(self).ttl_secs,
            final(self).sview() == kvlist::spec_retain(old(self).sview(), session_live(now_ms)),
    {
        let mut out: Vec<(String, SessionEntry)> = Vec::new();
        let ghost orig = self.sview();
        loop
            invariant
                self.ttl_secs == old(self).ttl_secs,
                kvlist::spec_retain(orig, session_live(now_ms)) == kv_view(out@)
                    + kvlist::spec_retain(self.sview(), session_live(now_ms)),
            ensures
                self.ttl_secs == old(self).ttl_secs,
                self.sessions@.len() == 0,
                kvlist::spec_retain(orig, session_live(now_ms)) == kv_view(out@)
                    + kvlist::spec_retain(self.sview(), session_live(now_ms)),
            decreases self.sessions@.len(),
        {
            if self.sessions.len() == 0 {
                break ;
            }
            let ghost prev = self.sview();
            let pair = self.sessions.remove(0);
            proof {
                assert(self.sview() =~= prev.drop_first());
                assert((pair.0@, pair.1) == prev[0]);
            }
            if pair.1.expires_at_ms > now_ms {
                out.push(pair);
            }
            proof {
                assert(kvlist::spec_retain(orig, session_live(now_ms)) =~= kv_view(out@)
                    + kvlist::spec_retain(self.sview(), session_live(now_ms)));
            }
        }
        proof {
            assert(kvlist::spec_retain(self.sview(), session_live(now_ms)) =~= Seq::<
                (Seq<char>, SessionEntry),
            >::empty());
            assert(kvlist::spec_retain(orig, session_live(now_ms)) =~= kv_view(out@));
            kvlist::lemma_retain_unique(orig, session_live(now_ms));
        }
        self.sessions = out;
    }

    /// Drop every session that has expired by now: the surviving map is the
    /// retained part of the old one at some clock reading.
    pub fn cleanup_expired(&mut self)
        requires
            old(self).wf(),
        ensures
            final(self).wf(),
            final(self).ttl_secs == old(self).ttl_secs,
            exists|now: u64|
                final(self).sview() == kvlist::spec_retain(
                    old(self).sview(),
                    session_live(now),
                ),
    {
        let now = crate::clock::now_millis();
        self.cleanup_expired_at(now);
        proof {
            assert(self.sview() == kvlist::spec_retain(old(self).sview(), session_live(now)));
        }
    }
}


/// Request body for the login and setup endpoints.
#[derive(Debug, Clone)]
pub struct PasswordRequest {
    pub password: String,
}

/// Response of the auth status endpoint.
#[derive(Debug, Clone, Copy, PartialEq, Eq, Structural)]
pub struct AuthStatusResponse {
    pub setup_required: bool,
    pub authenticated: bool,
}

/// Request body for creating an API key.
#[derive(Debug, Clone)]
pub struct CreateApiKeyRequest {
    pub name: String,
    pub scope: ApiKeyScope,
}

/// How a request authenticated.
#[derive(Debug, Clone, Copy, PartialEq, Eq, Structural)]
pub enum AuthInfo {
    /// No valid credential presented.
    Anonymous,
    /// A valid session cookie.
    Session,
    /// A valid API key with its scope.
    ApiKey(ApiKeyScope),
}

/// The bearer key in an `Authorization` header value, when the scheme is
/// `Bearer`.
pub open spec fn spec_bearer_key(auth_header: Seq<char>) -> Option<Seq<char>> {
    if has_prefix(auth_header, "Bearer "@) {
        Some(auth_header.skip(7))
    } else {
        None
    }
}

/// Extract the bearer key from an `Authorization` header value.
pub fn bearer_key_of(auth_header: &str) -> (r: Option<String>)
    ensures
        match r {
            Some(k) => spec_bearer_key(auth_header@) == Some(k@),
            None => spec_bearer_key(auth_header@) is None,
        },
{
    let chars = text::chars_of(auth_header);
    let prefix = text::chars_of("Bearer ");
    proof {
        reveal_strlit("Bearer ");
    }
    if text::starts_with_sub(chars.as_slice(), prefix.as_slice()) {
        let rest = vstd::slice::slice_subrange(chars.as_slice(), 7, chars.len());
        proof {
            assert(rest@ =~= auth_header@.skip(7));
        }
        Some(text::string_from_chars(rest))
    } else {
        None
    }
}

/// The credential a request carries, judged at `now_ms`: a live session
/// cookie first, then a bearer API key, then an `X-API-Key` header.
pub open spec fn spec_auth_info(
    sessions: Seq<(Seq<char>, SessionEntry)>,
    keys: Seq<StoredApiKey>,
    cookie_token: Option<Seq<char>>,
    bearer: Option<Seq<char>>,
    x_api_key: Option<Seq<char>>,
    now_ms: u64,
) -> AuthInfo {
    if (cookie_token matches Some(t) && spec_find(sessions, t) matches Some(e)
        && e.expires_at_ms > now_ms) {
        AuthInfo::Session
    } else if (bearer matches Some(k) && spec_validate_key(keys, spec_key_hash(k)) is Some) {
        AuthInfo::ApiKey(spec_validate_key(keys, spec_key_hash(bearer->Some_0))->Some_0)
    } else if (x_api_key matches Some(k) && spec_validate_key(keys, spec_key_hash(k)) is Some) {
        AuthInfo::ApiKey(spec_validate_key(keys, spec_key_hash(x_api_key->Some_0))->Some_0)
    } else {
        AuthInfo::Anonymous
    }
}

/// Determine how a request authenticated, judged at `now_ms`. An expired
/// session encountered on the way is deleted; no other session changes.
pub fn get_auth_info_at(
    sessions: &mut SessionStore,
    api_keys: &ApiKeyStore,
    cookie_token: Option<&str>,
    bearer: Option<&str>,
    x_api_key: Option<&str>,
    now_ms: u64,
) -> (r: AuthInfo)
    requires
        old(sessions).wf(),
    ensures
        final(sessions).wf(),
        final(sessions).ttl_secs == old(sessions).ttl_secs,
        r == spec_auth_info(
            old(sessions).sview(),
            api_keys.keys@,
            match cookie_token {
                Some(t) => Some(t@),
                None => None,
            },
            match bearer {
                Some(k) => Some(k@),
                None => None,
            },
            match x_api_key {
                Some(k) => Some(k@),
                None => None,
            },
            now_ms,
        ),
{
    if let Some(token) = cookie_token {
        if sessions.validate_session_at(token, now_ms).is_some() {
            return AuthInfo::Session;
        }
    }
    if let Some(key) = bearer {
        if let Some(scope) = api_keys.validate_key(key) {
            return AuthInfo::ApiKey(scope);
        }
    }
    if let Some(key) = x_api_key {
        if let Some(scope) = api_keys.validate_key(key) {
            return AuthInfo::ApiKey(scope);
        }
    }
    AuthInfo::Anonymous
}

/// Whether a request may pass the plain authentication gate: open access
/// with no password configured, else any valid credential.
pub fn allow_request(password_configured: bool, info: &AuthInfo) -> (r: bool)
    ensures
        r == (!password_configured || !(info is Anonymous)),
{
    !password_configured || !matches!(info, AuthInfo::Anonymous)
}

/// The outcome of the admin gate.
#[derive(Debug, Clone, Copy, PartialEq, Eq, Structural)]
pub enum AdminDecision {
    Allow,
    Unauthorized,
    Forbidden,
}

/// The admin gate: open access with no password; no credential is
/// unauthorised; a session must pass the CSRF check; an admin key passes; a
/// read-only key is forbidden.
pub open spec fn spec_admin_decision(
    password_configured: bool,
    info: AuthInfo,
    csrf_ok: bool,
) -> AdminDecision {
    if !password_configured {
        AdminDecision::Allow
    } else {
        match info {
            AuthInfo::Anonymous => AdminDecision::Unauthorized,
            AuthInfo::Session => if csrf_ok {
                AdminDecision::Allow
            } else {
                AdminDecision::Forbidden
            },
            AuthInfo::ApiKey(ApiKeyScope::Admin) => AdminDecision::Allow,
            AuthInfo::ApiKey(ApiKeyScope::ReadOnly) => AdminDecision::Forbidden,
        }
    }
}

/// Decide the admin gate for a request.
pub fn admin_decision(password_configured: bool, info: &AuthInfo, csrf_ok: bool) -> (r:
    AdminDecision)
    ensures
        r == spec_admin_decision(password_configured, *info, csrf_ok),
{
    if !password_configured {
        return AdminDecision::Allow;
    }
    match info {
        AuthInfo::Anonymous => AdminDecision::Unauthorized,
        AuthInfo::Session => {
            if csrf_ok {
                AdminDecision::Allow
            } else {
                AdminDecision::Forbidden
            }
        },
        AuthInfo::ApiKey(ApiKeyScope::Admin) => AdminDecision::Allow,
        AuthInfo::ApiKey(ApiKeyScope::ReadOnly) => AdminDecision::Forbidden,
    }
}

} // verus!
