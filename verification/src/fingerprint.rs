//! Privacy-preserving visitor fingerprints: a visitor ID is the
//! HMAC-SHA-256 of `ip || '|' || user_agent` keyed by a salt that rotates
//! daily, rendered as 64 lowercase hex characters. Raw IP addresses are
//! never stored.

use vstd::prelude::*;
use crate::dates::{Date, spec_format_date, format_date};
use crate::hashes;
use crate::hashes::{hex_of, hmac_sha256_of, is_hex_char};
use vstd::utf8::encode_utf8;

verus! {

/// The HMAC message for a visitor: UTF-8 of the IP, a `|` separator, and
/// UTF-8 of the user agent.
pub open spec fn visitor_msg(ip: Seq<char>, ua: Seq<char>) -> Seq<u8> {
    encode_utf8(ip) + seq![124u8] + encode_utf8(ua)
}

/// The visitor fingerprint: hex of the HMAC of the visitor message under
/// the daily salt.
pub open spec fn spec_visitor_id(ip: Seq<char>, ua: Seq<char>, salt: Seq<char>) -> Seq<char> {
    hex_of(hmac_sha256_of(encode_utf8(salt), visitor_msg(ip, ua)))
}

/// The visitor fingerprint is a function of the IP, user agent and salt
/// alone: equal inputs always give equal fingerprints.
pub proof fn lemma_visitor_id_deterministic(
    ip: Seq<char>,
    ua: Seq<char>,
    salt: Seq<char>,
    r1: Seq<char>,
    r2: Seq<char>,
)
    requires
        r1 == spec_visitor_id(ip, ua, salt),
        r2 == spec_visitor_id(ip, ua, salt),
    ensures
        r1 == r2,
{
}

/// Compute the pseudonymous visitor ID for an IP and user agent under the
/// given daily salt. Empty IP or user agent is permitted.
pub fn generate_visitor_id(ip: &str, user_agent: &str, daily_salt: &str) -> (r: String)
    ensures
        r@ == spec_visitor_id(ip@, user_agent@, daily_salt@),
        r@.len() == 64,
        forall|i: int| 0 <= i < r@.len() ==> is_hex_char(#[trigger] r@[i]),
{
    let mut msg: Vec<u8> = Vec::new();
    msg.extend_from_slice(ip.as_bytes());
    msg.push(124);
    msg.extend_from_slice(user_agent.as_bytes());
    proof {
        assert(msg@ =~= visitor_msg(ip@, user_agent@));
    }
    let mac = hashes::hmac_sha256(daily_salt.as_bytes(), msg.as_slice());
    proof {
        hashes::lemma_hex_of_chars(mac@);
    }
    hashes::hex_encode(mac.as_slice())
}

/// The HMAC message for a daily salt: UTF-8 of the secret, a `:` separator,
/// and UTF-8 of the date rendered as `YYYY-MM-DD`.
pub open spec fn salt_msg(secret: Seq<char>, date: Date) -> Seq<u8> {
    encode_utf8(secret) + seq![58u8] + encode_utf8(spec_format_date(date))
}

/// The daily salt: hex of the HMAC of the salt message under the fixed
/// application key.
pub open spec fn spec_daily_salt(secret: Seq<char>, date: Date) -> Seq<char> {
    hex_of(hmac_sha256_of(encode_utf8("mallard-metrics-salt"@), salt_msg(secret, date)))
}

/// Derive the salt for a given secret and UTC date. The salt is a pure
/// function of the pair, so visitor IDs are stable within a day and across
/// restarts, and rotate when the date changes.
pub fn daily_salt(secret: &str, date: &Date) -> (r: String)
    ensures
        r@ == spec_daily_salt(secret@, *date),
        r@.len() == 64,
        forall|i: int| 0 <= i < r@.len() ==> is_hex_char(#[trigger] r@[i]),
{
    let date_str = format_date(date);
    let mut msg: Vec<u8> = Vec::new();
    msg.extend_from_slice(secret.as_bytes());
    msg.push(58);
    msg.extend_from_slice(date_str.as_str().as_bytes());
    proof {
        assert(msg@ =~= salt_msg(secret@, *date));
    }
    let mac = hashes::hmac_sha256("mallard-metrics-salt".as_bytes(), msg.as_slice());
    proof {
        hashes::lemma_hex_of_chars(mac@);
    }
    hashes::hex_encode(mac.as_slice())
}

} // verus!
