//! The token authority: issues and verifies signed, expiring identity
//! tokens over one symmetric key.
//!
//! Decryption and claim extraction go through rusty_paseto with the
//! time-based validations switched off, so that the expiry decision
//! below is the one that counts: a token whose expiry lies before the
//! verification instant is rejected here even when the low-level
//! primitive would accept it.

use rusty_paseto::prelude::{
    ExpirationClaim, IssuedAtClaim, Key, Local, PasetoBuilder, PasetoParser, PasetoSymmetricKey,
    SubjectClaim, V4,
};
use vstd::prelude::*;

use crate::errors::AuthError;

verus! {

/// The claims a token carries: the subject it identifies and the
/// issue and expiry instants as epoch seconds.
#[derive(Debug)]
pub struct Claims {
    pub sub: String,
    pub exp: i64,
    pub iat: i64,
}

// ───────────────────────────────────────────────────────────────────
// Named outside results
// ───────────────────────────────────────────────────────────────────

/// What decrypting a token under a key yields: the subject, expiry
/// and issue claims as strings, or nothing when the token cannot be
/// decrypted, fails authentication, or lacks a claim.
pub uninterp spec fn decoded_claims(key: Seq<u8>, token: Seq<char>) -> Option<
    (Seq<char>, Seq<char>, Seq<char>),
>;

/// The epoch seconds an RFC 3339 string denotes, or nothing when it
/// does not parse.
pub uninterp spec fn rfc3339_ts(s: Seq<char>) -> Option<i64>;

/// The RFC 3339 rendering of an epoch second.
pub uninterp spec fn rfc3339_of(t: i64) -> Seq<char>;

// ───────────────────────────────────────────────────────────────────
// Trusted wrappers
// ───────────────────────────────────────────────────────────────────

/// Relies on chrono's `Utc::now`: the wall-clock instant, about which
/// nothing can be promised.
#[verifier::external_body]
fn now_ts() -> i64 {
    chrono::Utc::now().timestamp()
}

/// Relies on chrono's `DateTime::from_timestamp` and `to_rfc3339`:
/// the rendering depends on the timestamp alone, and chrono's own
/// parser reads the same instant back. The parse-back holds only for
/// years 0000 through 9999 — outside them chrono renders a signed,
/// expanded year that its RFC 3339 parser refuses — so instants
/// outside that range are not admitted. `None` stands for a
/// timestamp chrono cannot represent.
#[verifier::external_body]
fn ts_to_rfc3339(ts: i64) -> (r: Option<String>)
    requires
        -62167219200 <= ts < 253402300800,
    ensures
        match r {
            Some(s) => s@ == rfc3339_of(ts) && rfc3339_ts(s@) == Some(ts),
            None => true,
        },
{
    chrono::DateTime::from_timestamp(ts, 0).map(|d| d.to_rfc3339())
}

/// Relies on chrono's `DateTime::parse_from_rfc3339` and `timestamp`:
/// a pure function of the string.
#[verifier::external_body]
fn parse_rfc3339_ts(s: &str) -> (r: Option<i64>)
    ensures
        r == rfc3339_ts(s@),
{
    match chrono::DateTime::parse_from_rfc3339(s) {
        Ok(d) => Some(d.timestamp()),
        Err(_) => None,
    }
}

/// Relies on rusty_paseto's V4 local builder: a token built with
/// these subject, expiry and issue claims decrypts back to exactly
/// them under the same key.
#[verifier::external_body]
fn paseto_encrypt(key: &[u8], sub: &str, exp_rfc: &str, iat_rfc: &str) -> (r: Option<String>)
    requires
        key@.len() == 32,
    ensures
        match r {
            Some(t) => decoded_claims(key@, t@) == Some((sub@, exp_rfc@, iat_rfc@)),
            None => true,
        },
{
    let mut arr = [0u8; 32];
    arr.copy_from_slice(key);
    let k = PasetoSymmetricKey::<V4, Local>::from(Key::from(&arr));
    let exp = ExpirationClaim::try_from(exp_rfc.to_string()).ok()?;
    let iat = IssuedAtClaim::try_from(iat_rfc.to_string()).ok()?;
    PasetoBuilder::<V4, Local>::default()
        .set_claim(SubjectClaim::from(sub))
        .set_claim(exp)
        .set_claim(iat)
        .build(&k)
        .ok()
}

/// Relies on rusty_paseto's `PasetoParser::new`, which performs no
/// time-based validation: decryption and claim extraction depend on
/// key and token alone.
#[verifier::external_body]
fn paseto_decrypt(key: &[u8], token: &str) -> (r: Option<(String, String, String)>)
    requires
        key@.len() == 32,
    ensures
        match r {
            Some(t) => decoded_claims(key@, token@) == Some((t.0@, t.1@, t.2@)),
            None => decoded_claims(key@, token@) is None,
        },
{
    let mut arr = [0u8; 32];
    arr.copy_from_slice(key);
    let k = PasetoSymmetricKey::<V4, Local>::from(Key::from(&arr));
    let v = PasetoParser::<V4, Local>::new().parse(token, &k).ok()?;
    let sub = v["sub"].as_str()?.to_string();
    let exp = v["exp"].as_str()?.to_string();
    let iat = v["iat"].as_str()?.to_string();
    Some((sub, exp, iat))
}

// ───────────────────────────────────────────────────────────────────
// The authority
// ───────────────────────────────────────────────────────────────────

/// The claims a token denotes under a key, with its instants read as
/// epoch seconds; nothing when it cannot be decrypted or an instant
/// does not parse.
pub open spec fn token_claims(key: Seq<u8>, token: Seq<char>) -> Option<(Seq<char>, i64, i64)> {
    match decoded_claims(key, token) {
        Some(d) => match (rfc3339_ts(d.1), rfc3339_ts(d.2)) {
            (Some(e), Some(i)) => Some((d.0, e, i)),
            _ => None,
        },
        None => None,
    }
}

/// The token authority. It holds the symmetric key and nothing else,
/// so concurrent verification is safe.
pub struct PasetoManager {
    key: Vec<u8>,
}

impl PasetoManager {
    pub closed spec fn key_v(self) -> Seq<u8> {
        self.key@
    }

    pub closed spec fn wf(self) -> bool {
        self.key@.len() == 32
    }

    /// Builds the authority from its 32-byte symmetric key.
    pub fn new(key_bytes: Vec<u8>) -> (r: Result<PasetoManager, AuthError>)
        ensures
            match r {
                Ok(m) => m.wf() && m.key_v() == key_bytes@ && key_bytes@.len() == 32,
                Err(e) => e == AuthError::Malformed && key_bytes@.len() != 32,
            },
    {
        if key_bytes.len() == 32 {
            Ok(PasetoManager { key: key_bytes })
        } else {
            Err(AuthError::Malformed)
        }
    }

    /// Issues a token for `user_id` that expires `expires_in_hours`
    /// hours from now: its subject is the user id and its expiry lies
    /// exactly that long after its issue instant.
    pub fn create_token(&self, user_id: &str, expires_in_hours: i64) -> (r: Result<
        String,
        AuthError,
    >)
        requires
            self.wf(),
            0 <= expires_in_hours <= 1_000_000,
        ensures
            match r {
                Ok(t) => match token_claims(self.key_v(), t@) {
                    Some(c) => c.0 == user_id@ && c.1 == c.2 + expires_in_hours * 3600,
                    None => false,
                },
                Err(e) => e == AuthError::Malformed,
            },
    {
        let now = now_ts();
        let exp_ts = match now.checked_add(expires_in_hours * 3600) {
            Some(v) => v,
            None => {
                return Err(AuthError::Malformed);
            },
        };
        // a clock outside years 0000..=9999 cannot be carried in the
        // token's RFC 3339 claims; treat it as a failed issue
        if now < -62167219200 || exp_ts >= 253402300800 || exp_ts < -62167219200 || now
            >= 253402300800 {
            return Err(AuthError::Malformed);
        }
        let iat_rfc = match ts_to_rfc3339(now) {
            Some(s) => s,
            None => {
                return Err(AuthError::Malformed);
            },
        };
        let exp_rfc = match ts_to_rfc3339(exp_ts) {
            Some(s) => s,
            None => {
                return Err(AuthError::Malformed);
            },
        };
        match paseto_encrypt(self.key.as_slice(), user_id, exp_rfc.as_str(), iat_rfc.as_str()) {
            Some(t) => Ok(t),
            None => Err(AuthError::Malformed),
        }
    }

    /// Verifies a token against the instant `now`: malformed tokens
    /// fail `Malformed`, a token whose expiry lies before `now` fails
    /// `Expired`, and any other decodes to its claims.
    pub fn verify_token_at(&self, token: &str, now: i64) -> (r: Result<Claims, AuthError>)
        requires
            self.wf(),
        ensures
            match r {
                Ok(c) => token_claims(self.key_v(), token@) == Some((c.sub@, c.exp, c.iat))
                    && now <= c.exp,
                Err(e) => match token_claims(self.key_v(), token@) {
                    Some(t) => e == AuthError::Expired && t.1 < now,
                    None => e == AuthError::Malformed,
                },
            },
    {
        let decoded = match paseto_decrypt(self.key.as_slice(), token) {
            Some(d) => d,
            None => {
                return Err(AuthError::Malformed);
            },
        };
        let (sub, exp_s, iat_s) = decoded;
        let exp = match parse_rfc3339_ts(exp_s.as_str()) {
            Some(t) => t,
            None => {
                return Err(AuthError::Malformed);
            },
        };
        let iat = match parse_rfc3339_ts(iat_s.as_str()) {
            Some(t) => t,
            None => {
                return Err(AuthError::Malformed);
            },
        };
        if exp < now {
            return Err(AuthError::Expired);
        }
        Ok(Claims { sub, exp, iat })
    }

    /// Verifies a token against the wall clock. What instant the
    /// clock reads cannot be pinned down, so this promises the claim
    /// correspondence and that only well-formed tokens ever pass;
    /// `verify_token_at` carries the exact expiry decision.
    pub fn verify_token(&self, token: &str) -> (r: Result<Claims, AuthError>)
        requires
            self.wf(),
        ensures
            match r {
                Ok(c) => token_claims(self.key_v(), token@) == Some((c.sub@, c.exp, c.iat)),
                Err(e) => match token_claims(self.key_v(), token@) {
                    Some(_) => e == AuthError::Expired,
                    None => e == AuthError::Malformed,
                },
            },
    {
        let now = now_ts();
        self.verify_token_at(token, now)
    }
}

} // verus!
