use vstd::prelude::*;
use vstd::string::StringExecFns;

use crate::cache::inner::Cache;
use crate::cache::posts::Held;
use crate::cache::users::User;
use crate::error::{Error, Result};

use argon2::password_hash::{PasswordHash, PasswordHasher, PasswordVerifier, SaltString};
use argon2::Argon2;
use base64::engine::general_purpose::URL_SAFE_NO_PAD;
use base64::Engine;
use rand::rngs::OsRng;
use rand::RngCore;
use sha2::{Digest as _, Sha256};

verus! {

/// The SHA-256 digest of `bytes`.
pub uninterp spec fn sha256(bytes: Seq<u8>) -> Seq<u8>;

/// The character of the 6-bit value `v` in the URL-safe base64 alphabet:
/// `A`-`Z`, `a`-`z`, `0`-`9`, `-` and `_`.
pub open spec fn base64_url_char(v: nat) -> char {
    if v < 26 {
        (65 + v) as char
    } else if v < 52 {
        (97 + (v - 26)) as char
    } else if v < 62 {
        (48 + (v - 52)) as char
    } else if v == 62 {
        '-'
    } else {
        '_'
    }
}

/// `bytes` in URL-safe base64 without padding: each group of three bytes,
/// read as a 24-bit number, gives four characters of six bits each, most
/// significant first; a last group of two bytes gives three characters, and
/// one byte two, the missing bits being zero.
pub open spec fn base64_url(bytes: Seq<u8>) -> Seq<char>
    decreases bytes.len(),
{
    if bytes.len() >= 3 {
        let n = bytes[0] as nat * 65536 + bytes[1] as nat * 256 + bytes[2] as nat;
        seq![
            base64_url_char(n / 262144),
            base64_url_char(n / 4096 % 64),
            base64_url_char(n / 64 % 64),
            base64_url_char(n % 64),
        ] + base64_url(bytes.skip(3))
    } else if bytes.len() == 2 {
        let n = bytes[0] as nat * 65536 + bytes[1] as nat * 256;
        seq![base64_url_char(n / 262144), base64_url_char(n / 4096 % 64), base64_url_char(n / 64 % 64)]
    } else if bytes.len() == 1 {
        let n = bytes[0] as nat * 65536;
        seq![base64_url_char(n / 262144), base64_url_char(n / 4096 % 64)]
    } else {
        Seq::empty()
    }
}

/// What decoding `text` as URL-safe base64 without padding into a 32-byte
/// buffer of zeros leaves there, when the decoding succeeds.
pub uninterp spec fn decoded_32(text: Seq<char>) -> Option<Seq<u8>>;

/// What checking a password against a stored password hash finds.
#[derive(Clone, Copy, Debug, PartialEq, Eq, Structural)]
pub enum Verdict {
    /// The password is the one the hash was made from.
    Match,
    /// It is not.
    Mismatch,
    /// The stored hash cannot be read.
    InvalidHash,
    /// The check itself failed.
    Failed,
}

/// What checking `password` against the stored hash `hash` finds.
pub uninterp spec fn password_verdict(password: Seq<char>, hash: Seq<char>) -> Verdict;

/// `rand::rngs::OsRng::fill_bytes`: 32 bytes from the operating system's
/// random source. Nothing is stated of them.
#[verifier::external_body]
fn random_32() -> (bytes: [u8; 32]) {
    let mut buf = [0u8; 32];
    OsRng.fill_bytes(&mut buf);
    buf
}

/// `sha2::Sha256::digest`: the SHA-256 digest of `bytes`, which is named.
#[verifier::external_body]
fn sha256_of(bytes: &[u8; 32]) -> (digest: [u8; 32])
    ensures
        digest@ == sha256(bytes@),
{
    Sha256::digest(bytes).into()
}

/// `base64::Engine::encode` with `URL_SAFE_NO_PAD`: the bytes as text
/// (see `base64_url`); decoding that text gives the bytes back.
#[verifier::external_body]
fn encode_url(bytes: &[u8; 32]) -> (text: String)
    ensures
        text@ == base64_url(bytes@),
        decoded_32(text@) == Some(bytes@),
{
    URL_SAFE_NO_PAD.encode(bytes)
}

/// `base64::Engine::decode_slice` with `URL_SAFE_NO_PAD` into a 32-byte
/// buffer of zeros: the buffer when the decoding succeeds. The result is
/// named; which inputs fail is left to the name.
#[verifier::external_body]
fn decode_url(text: &str) -> (bytes: Option<[u8; 32]>)
    ensures
        match bytes {
            Some(b) => decoded_32(text@) == Some(b@),
            None => decoded_32(text@) is None,
        },
{
    let mut buf = [0u8; 32];
    match URL_SAFE_NO_PAD.decode_slice(text, &mut buf) {
        Ok(_) => Some(buf),
        Err(_) => None,
    }
}

/// A password check's outcome, with the error text of a failure.
pub enum Checked {
    Match,
    Mismatch,
    InvalidHash(String),
    Failed(String),
}

/// The verdict of a password check's outcome.
pub open spec fn verdict_of(c: Checked) -> Verdict {
    match c {
        Checked::Match => Verdict::Match,
        Checked::Mismatch => Verdict::Mismatch,
        Checked::InvalidHash(_) => Verdict::InvalidHash,
        Checked::Failed(_) => Verdict::Failed,
    }
}

/// `argon2::password_hash::PasswordHash::new` on `hash`, then
/// `PasswordVerifier::verify_password` with `Argon2::default()`; the
/// password error means a mismatch. The verdict is named; the error texts
/// are not stated.
#[verifier::external_body]
fn check_password(password: &str, hash: &str) -> (checked: Checked)
    ensures
        verdict_of(checked) == password_verdict(password@, hash@),
{
    let hash = match PasswordHash::new(hash) {
        Ok(hash) => hash,
        Err(err) => return Checked::InvalidHash(err.to_string()),
    };
    match Argon2::default().verify_password(password.as_bytes(), &hash) {
        Ok(()) => Checked::Match,
        Err(argon2::password_hash::Error::Password) => Checked::Mismatch,
        Err(err) => Checked::Failed(err.to_string()),
    }
}

/// `argon2::password_hash::PasswordHasher::hash_password` with
/// `Argon2::default()` and a salt from `SaltString::generate(OsRng)`: the
/// hash in PHC string format, or the error's text. The salt is random, so
/// the hash is not named; a hash made from a password checks as a match
/// against it.
#[verifier::external_body]
fn make_hash(password: &str) -> (hashed: std::result::Result<String, String>)
    ensures
        hashed matches Ok(h) ==> password_verdict(password@, h@) == Verdict::Match,
{
    let salt = SaltString::generate(&mut OsRng);
    match Argon2::default().hash_password(password.as_bytes(), &salt) {
        Ok(hash) => Ok(hash.to_string()),
        Err(err) => Err(err.to_string()),
    }
}

/// Checks `password` against the stored hash `password_hash`: `Ok(true)`
/// on a match and `Ok(false)` on a mismatch; a hash that cannot be read,
/// or a check that fails, is an internal error that says so.
pub fn verify_password(password: &str, password_hash: &str) -> (matched: Result<bool>)
    ensures
        match password_verdict(password@, password_hash@) {
            Verdict::Match => matched == Ok::<bool, Error>(true),
            Verdict::Mismatch => matched == Ok::<bool, Error>(false),
            Verdict::InvalidHash => matched matches Err(Error::Internal(m)) && m@.len() >= 23 && m@.subrange(0, 23)
                == "invalid password hash: "@,
            Verdict::Failed => matched matches Err(Error::Internal(m)) && m@.len() >= 27 && m@.subrange(0, 27)
                == "failed to verify password: "@,
        },
{
    match check_password(password, password_hash) {
        Checked::Match => Ok(true),
        Checked::Mismatch => Ok(false),
        Checked::InvalidHash(detail) => {
            let m = String::from_str("invalid password hash: ").concat(detail.as_str());
            proof {
                reveal_strlit("invalid password hash: ");
                assert(m@.subrange(0, 23) =~= "invalid password hash: "@);
            }
            Err(Error::Internal(m))
        },
        Checked::Failed(detail) => {
            let m = String::from_str("failed to verify password: ").concat(detail.as_str());
            proof {
                reveal_strlit("failed to verify password: ");
                assert(m@.subrange(0, 27) =~= "failed to verify password: "@);
            }
            Err(Error::Internal(m))
        },
    }
}

/// Hashes `password` with a fresh random salt. A hash it returns checks as
/// a match for the password; a failure is an internal error that says so.
pub fn hash_password(password: &str) -> (hashed: Result<String>)
    ensures
        hashed matches Ok(h) ==> password_verdict(password@, h@) == Verdict::Match,
        hashed matches Err(e) ==> e matches Error::Internal(m) && m@.len() >= 25 && m@.subrange(0, 25)
            == "failed to hash password: "@,
{
    match make_hash(password) {
        Ok(h) => Ok(h),
        Err(detail) => {
            let m = String::from_str("failed to hash password: ").concat(detail.as_str());
            proof {
                reveal_strlit("failed to hash password: ");
                assert(m@.subrange(0, 25) =~= "failed to hash password: "@);
            }
            Err(Error::Internal(m))
        },
    }
}

/// The SHA-256 digest of a session ID, as stored.
#[derive(Clone, Copy, Debug)]
pub struct Digest {
    pub bytes: [u8; 32],
}

/// A session's secret ID.
#[derive(Clone, Copy, Debug)]
pub struct SessionId {
    pub bytes: [u8; 32],
}

impl SessionId {
    /// A new random ID.
    pub fn generate() -> (id: Self) {
        SessionId { bytes: random_32() }
    }

    /// The ID's digest, which the database stores in its place.
    pub fn digest(&self) -> (digest: Digest)
        ensures
            digest.bytes@ == sha256(self.bytes@),
    {
        Digest { bytes: sha256_of(&self.bytes) }
    }

    /// The ID as text: URL-safe base64 without padding, which `parse`
    /// reads back as this ID.
    pub fn to_text(&self) -> (text: String)
        ensures
            text@ == base64_url(self.bytes@),
            decoded_32(text@) == Some(self.bytes@),
    {
        encode_url(&self.bytes)
    }

    /// Reads an ID from its text: whatever the text decodes to fills the
    /// ID from the start, and the rest stays zero. Text that does not
    /// decode into 32 bytes is refused.
    pub fn parse(text: &str) -> (id: Option<Self>)
        ensures
            match id {
                Some(id) => decoded_32(text@) == Some(id.bytes@),
                None => decoded_32(text@) is None,
            },
    {
        match decode_url(text) {
            Some(bytes) => Some(SessionId { bytes }),
            None => None,
        }
    }
}

impl Digest {
    /// The digest as text: URL-safe base64 without padding.
    pub fn to_text(&self) -> (text: String)
        ensures
            text@ == base64_url(self.bytes@),
            decoded_32(text@) == Some(self.bytes@),
    {
        encode_url(&self.bytes)
    }
}

/// A signed-in user's session, which ends at its expiration time.
#[derive(Debug)]
pub struct Session {
    id: SessionId,
    user: Held,
    expiration: i64,
}

impl Session {
    pub closed spec fn key(&self) -> SessionId {
        self.id
    }

    pub closed spec fn holder(&self) -> Held {
        self.user
    }

    pub closed spec fn expires(&self) -> i64 {
        self.expiration
    }

    /// A session of the user behind `user`, which keeps the handle.
    pub fn new(id: SessionId, user: Held, expiration: i64) -> (session: Self)
        ensures
            session.key() == id,
            session.holder() == user,
            session.expires() == expiration,
    {
        Session { id, user, expiration }
    }

    /// The session's ID.
    pub fn id(&self) -> (id: SessionId)
        ensures
            id == self.key(),
    {
        self.id
    }

    /// The session's user.
    pub fn user(&self) -> (user: Held)
        ensures
            user == self.holder(),
    {
        self.user
    }

    /// Whether the session has ended at time `now`.
    pub fn is_expired(&self, now: i64) -> (expired: bool)
        ensures
            expired == (now >= self.expires()),
    {
        now >= self.expiration
    }

    /// Whether the session still admits its user at time `now`: the user is
    /// live and not deleted, and the session has not ended.
    pub fn is_valid(&self, users: &Cache<User>, now: i64) -> (valid: bool)
        ensures
            valid == (users@.slots.contains_key(self.holder().handle) && users@.slots[self.holder().handle].value.mutable@ is Some
                && now < self.expires()),
    {
        let alive = match users.value(self.user.handle) {
            Some(user) => !user.is_deleted(),
            None => false,
        };
        alive && !self.is_expired(now)
    }
}

} // verus!
