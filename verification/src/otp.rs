//! Time-based one-time codes (TOTP over HOTP): a 6-digit code derived from a
//! shared secret and the current unix time, with a 30-second time step and an
//! HMAC-SHA1 digest.

use vstd::prelude::*;

use crate::Error;

verus! {

/// What `base32::decode` returns for a given character sequence, using the
/// RFC 4648 lowercase alphabet without padding: `Some` of the decoded bytes
/// exactly when the input is a well-formed encoding, `None` otherwise.
pub uninterp spec fn base32_decoded(s: Seq<char>) -> Option<Seq<u8>>;

/// The 20-byte HMAC-SHA1 tag of `msg` under `key`.
pub uninterp spec fn hmac_sha1_of(key: Seq<u8>, msg: Seq<u8>) -> Seq<u8>;

/// Relies on `base32::decode` with `Alphabet::Rfc4648Lower { padding: false }`:
/// the result is a function of the input characters alone.
#[verifier::external_body]
fn base32_decode(secret: &str) -> (r: Option<Vec<u8>>)
    ensures
        (match r {
            Some(key) => base32_decoded(secret@) == Some(key@),
            None => base32_decoded(secret@) is None,
        }),
{
    base32::decode(base32::Alphabet::Rfc4648Lower { padding: false }, secret)
}

/// Relies on `hmac::Hmac<sha1::Sha1>` (`new_from_slice`, `update`, `finalize`):
/// HMAC-SHA1 accepts a key of any length and yields a 20-byte tag that depends
/// on the key and the message alone.
#[verifier::external_body]
fn hmac_sha1(key: &Vec<u8>, msg: &Vec<u8>) -> (r: Vec<u8>)
    ensures
        r@ == hmac_sha1_of(key@, msg@),
        r@.len() == 20,
{
    let mut mac = <hmac::Hmac<sha1::Sha1> as hmac::KeyInit>::new_from_slice(key.as_slice())
        .expect("HMAC accepts keys of any length");
    hmac::Mac::update(&mut mac, msg.as_slice());
    hmac::Mac::finalize(mac).into_bytes().to_vec()
}

/// The number of the 30-second window that the instant `unix_seconds` falls in.
pub open spec fn totp_counter(unix_seconds: u64) -> u64 {
    unix_seconds / 30
}

/// The big-endian 8-byte encoding of the time counter.
pub open spec fn counter_bytes(c: u64) -> Seq<u8> {
    seq![
        ((c >> 56) & 0xff) as u8,
        ((c >> 48) & 0xff) as u8,
        ((c >> 40) & 0xff) as u8,
        ((c >> 32) & 0xff) as u8,
        ((c >> 24) & 0xff) as u8,
        ((c >> 16) & 0xff) as u8,
        ((c >> 8) & 0xff) as u8,
        (c & 0xff) as u8,
    ]
}

/// Dynamic truncation of a 20-byte digest (RFC 4226): the low nibble of the
/// last byte picks an offset, four bytes from there form a 31-bit integer, and
/// the code is its remainder modulo 10^6.
pub open spec fn truncated_code(digest: Seq<u8>) -> u32
    recommends
        digest.len() == 20,
{
    let offset = (digest[19] & 0x0f) as int;
    let bin = (((digest[offset] & 0x7f) as u32) << 24) | ((digest[offset + 1] as u32) << 16)
        | ((digest[offset + 2] as u32) << 8) | (digest[offset + 3] as u32);
    bin % 1000000u32
}

/// The 6-digit TOTP code for the decoded secret `key` at instant `unix_seconds`.
pub open spec fn totp_code(key: Seq<u8>, unix_seconds: u64) -> u32 {
    truncated_code(hmac_sha1_of(key, counter_bytes(totp_counter(unix_seconds))))
}

/// Builds the big-endian message that is fed to the HMAC.
fn counter_to_bytes(c: u64) -> (r: Vec<u8>)
    ensures
        r@ == counter_bytes(c),
{
    let mut r: Vec<u8> = Vec::new();
    r.push(((c >> 56) & 0xff) as u8);
    r.push(((c >> 48) & 0xff) as u8);
    r.push(((c >> 40) & 0xff) as u8);
    r.push(((c >> 32) & 0xff) as u8);
    r.push(((c >> 24) & 0xff) as u8);
    r.push(((c >> 16) & 0xff) as u8);
    r.push(((c >> 8) & 0xff) as u8);
    r.push((c & 0xff) as u8);
    proof {
        assert(r@ =~= counter_bytes(c));
    }
    r
}

/// Dynamic truncation of a 20-byte HMAC digest to a code below 10^6.
pub fn truncate_digest(digest: &Vec<u8>) -> (r: u32)
    requires
        digest@.len() == 20,
    ensures
        r == truncated_code(digest@),
        r < 1000000,
{
    let last = digest[19];
    assert((last & 0x0f) < 16) by (bit_vector);
    let offset = (last & 0x0f) as usize;
    let bin = (((digest[offset] & 0x7f) as u32) << 24) | ((digest[offset + 1] as u32) << 16)
        | ((digest[offset + 2] as u32) << 8) | (digest[offset + 3] as u32);
    bin % 1000000
}

/// Generates the current code for a base32-encoded secret: decodes the secret,
/// hashes the 30-second window counter of `unix_seconds` with HMAC-SHA1 under
/// the decoded key, and truncates the digest. Fails exactly when the secret is
/// not well-formed base32 (lowercase, unpadded). The result is a function of
/// the secret and the instant alone, so repeated calls agree.
pub fn generate_otp(secret: &str, unix_seconds: u64) -> (r: Result<u32, Error>)
    ensures
        r is Ok == base32_decoded(secret@) is Some,
        (match r {
            Ok(code) => code == totp_code(base32_decoded(secret@)->Some_0, unix_seconds) && code
                < 1000000,
            Err(e) => e == Error::InvalidSecretEncoding,
        }),
{
    let key = match base32_decode(secret) {
        Some(key) => key,
        None => {
            return Err(Error::InvalidSecretEncoding);
        },
    };
    let msg = counter_to_bytes(unix_seconds / 30);
    let digest = hmac_sha1(&key, &msg);
    Ok(truncate_digest(&digest))
}

/// The decimal rendering of a code, zero-padded to exactly six ASCII digits.
pub open spec fn code_digits(code: u32) -> Seq<u8>
    recommends
        code < 1000000,
{
    seq![
        (48 + (code / 100000) % 10) as u8,
        (48 + (code / 10000) % 10) as u8,
        (48 + (code / 1000) % 10) as u8,
        (48 + (code / 100) % 10) as u8,
        (48 + (code / 10) % 10) as u8,
        (48 + code % 10) as u8,
    ]
}

/// Renders a code as six ASCII decimal digits, leading zeros preserved.
pub fn format_code(code: u32) -> (r: Vec<u8>)
    requires
        code < 1000000,
    ensures
        r@ == code_digits(code),
        r@.len() == 6,
{
    let mut r: Vec<u8> = Vec::new();
    r.push((48 + (code / 100000) % 10) as u8);
    r.push((48 + (code / 10000) % 10) as u8);
    r.push((48 + (code / 1000) % 10) as u8);
    r.push((48 + (code / 100) % 10) as u8);
    r.push((48 + (code / 10) % 10) as u8);
    r.push((48 + code % 10) as u8);
    proof {
        assert(r@ =~= code_digits(code));
    }
    r
}

/// Two instants inside the same 30-second window yield the same code, for
/// every key: the code depends on the time only through the window counter.
pub proof fn lemma_step_boundary(key: Seq<u8>, t1: u64, t2: u64)
    requires
        t1 / 30 == t2 / 30,
    ensures
        totp_code(key, t1) == totp_code(key, t2),
{
}

} // verus!
