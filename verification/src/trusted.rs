//! The calls this library makes into outside crates, each with the contract
//! that the rest of the library relies on.

use sha2::Digest;
use vstd::prelude::*;

verus! {

/// The text form of a version-4 UUID: 36 characters, hyphens at positions 8,
/// 13, 18 and 23, and the version digit `4` at position 14.
pub open spec fn uuid_text_form(s: Seq<char>) -> bool {
    &&& s.len() == 36
    &&& s[8] == '-'
    &&& s[13] == '-'
    &&& s[18] == '-'
    &&& s[23] == '-'
    &&& s[14] == '4'
}

/// The bytes of a version-4 UUID: 16 bytes, version nibble 4 in byte 6 and
/// the RFC 4122 variant bits `10` at the top of byte 8.
pub open spec fn uuid_bytes_form(b: Seq<u8>) -> bool {
    &&& b.len() == 16
    &&& b[6] & 0xf0u8 == 0x40u8
    &&& b[8] & 0xc0u8 == 0x80u8
}

/// RFC 3339 text of a UTC time as chrono writes it with `to_rfc3339`: at least
/// 25 characters (date, `T`, time, offset), ending in the offset `+00:00`.
pub open spec fn utc_rfc3339_form(s: Seq<char>) -> bool {
    &&& s.len() >= 25
    &&& s.subrange(s.len() - 6, s.len() as int) == "+00:00"@
}

/// The SHA-256 digest of a byte sequence (FIPS 180-4). It depends on the bytes
/// alone; its value is not spelled out here.
pub uninterp spec fn sha256_digest(data: Seq<u8>) -> Seq<u8>;

/// Hashes `data` with `sha2::Sha256` (`Digest::new`, `update`, `finalize`).
/// Claimed: the result is the digest named `sha256_digest` of the input bytes,
/// and it is 32 bytes long (the output size of SHA-256).
#[verifier::external_body]
pub(crate) fn sha256(data: &[u8]) -> (r: Vec<u8>)
    ensures
        r@ == sha256_digest(data@),
        r@.len() == 32,
{
    let mut hasher = sha2::Sha256::new();
    hasher.update(data);
    hasher.finalize().to_vec()
}

/// A fresh random identifier: `uuid::Uuid::new_v4()` rendered with `to_string`.
/// Claimed: the text is the 36-character hyphenated form, with hyphens at
/// positions 8, 13, 18 and 23 and the version digit `4` at position 14.
/// Which identifier comes back is left open: it is random.
#[verifier::external_body]
pub(crate) fn random_uuid_text() -> (r: String)
    ensures
        uuid_text_form(r@),
{
    uuid::Uuid::new_v4().to_string()
}

/// The 16 bytes of a fresh random identifier: `uuid::Uuid::new_v4().as_bytes()`.
/// Claimed: 16 bytes, with the version nibble 4 in byte 6 and the RFC 4122
/// variant bits `10` at the top of byte 8. The other bits are random.
#[verifier::external_body]
pub(crate) fn random_uuid_bytes() -> (r: Vec<u8>)
    ensures
        uuid_bytes_form(r@),
{
    uuid::Uuid::new_v4().as_bytes().to_vec()
}

/// The current time: the reading of `std::time::SystemTime::now()` converted
/// by chrono's `From<SystemTime> for DateTime<Utc>` and rendered with
/// `to_rfc3339`. Claimed: the text has the RFC 3339 form chrono writes for a
/// UTC time, at least 25 characters ending in `+00:00` (chrono writes the year
/// in four digits, or more with a sign, and the zero offset as `+00:00`).
/// Which time it shows is left open: it depends on the clock.
/// The conversion handles readings before the Unix epoch; it unwraps only for
/// a reading outside the years chrono can represent (about 262,000 years from
/// the epoch either way), a clock fault like an entropy failure under `uuid`.
#[verifier::external_body]
pub(crate) fn now_rfc3339() -> (r: String)
    ensures
        utc_rfc3339_form(r@),
{
    chrono::DateTime::<chrono::Utc>::from(std::time::SystemTime::now()).to_rfc3339()
}

/// A JSON value from `serde_json`, carried through the audit log unread.
#[verifier::external_type_specification]
#[verifier::external_body]
pub struct JsonValueDecl(serde_json::Value);

} // verus!
