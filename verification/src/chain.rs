use vstd::prelude::*;
use vstd::string::StringSliceAdditionalSpecFns;
use std::str::FromStr;
use web3::signing::Key;
use crate::text::{no_upper, plain_str};

verus! {

/// The Keccak-256 digest of a byte string: a function of the bytes
/// alone.
pub uninterp spec fn keccak_of(data: Seq<u8>) -> Seq<u8>;

/// Relies on `web3::signing::keccak256`: a 32-byte digest of the
/// input, depending on the input bytes alone.
#[verifier::external_body]
pub fn keccak256(data: &[u8]) -> (r: Vec<u8>)
    ensures
        r@ == keccak_of(data@),
        r@.len() == 32,
{
    web3::signing::keccak256(data).to_vec()
}

/// The digest a key identifier is hashed to on the wire.
pub open spec fn key_hash_spec(id: &str) -> Seq<u8> {
    keccak_of(id.spec_bytes())
}

/// The hash under which the contract keys an identifier.
pub fn key_hash(id: &str) -> (r: Vec<u8>)
    ensures
        r@ == key_hash_spec(id),
        r@.len() == 32,
{
    keccak256(id.as_bytes())
}

/// The outcome of deriving a signer address from secret-key material:
/// the address as `0x`-prefixed lower-case hex, or nothing where the
/// material is rejected.  Parsing and validating key material and
/// deriving the address are functions of the material alone, so the
/// whole outcome is too.
pub uninterp spec fn address_of_secret(sk_hex: Seq<char>) -> Option<Seq<char>>;

/// Relies on `secp256k1::SecretKey::from_str` and
/// `web3::signing::SecretKeyRef::address`: parses hex key material and
/// derives the signer address, formatted `{:#x}` as `0x` plus 40
/// lower-case hex digits.  Rejected key material yields `None`, and
/// which material is rejected depends on the material alone.
#[verifier::external_body]
pub fn derive_address(sk_hex: &str) -> (r: Option<String>)
    ensures
        r is Some <==> address_of_secret(sk_hex@) is Some,
        r matches Some(a) ==> {
            &&& address_of_secret(sk_hex@) == Option::Some(a@)
            &&& a@.len() == 42
            &&& plain_str(a@)
            &&& no_upper(a@)
        },
{
    match web3::signing::SecretKey::from_str(sk_hex) {
        Ok(sk) => Option::Some(format!("{:#x}", web3::signing::SecretKeyRef::new(&sk).address())),
        Err(_) => Option::None,
    }
}

/// Relies on `std::time::SystemTime::now` and chrono's
/// `From<SystemTime>` conversion: the current time as whole epoch
/// seconds.  The conversion maps a clock before the epoch to negative
/// seconds rather than panicking.  Nothing can be promised of a clock
/// reading; callers state what holds for every value.
#[verifier::external_body]
pub fn now_timestamp() -> i64 {
    chrono::DateTime::<chrono::Utc>::from(std::time::SystemTime::now()).timestamp()
}

/// A clock reading clamped into the mirror's timestamp range.
pub fn clamp_timestamp(t: i64) -> (r: u64)
    ensures
        t >= 0 ==> r == t,
        t < 0 ==> r == 0,
{
    if t >= 0 {
        t as u64
    } else {
        0
    }
}

/// The current time as a mirror timestamp: epoch seconds, with
/// readings before the epoch clamped to zero.
pub fn now_mirror_timestamp() -> u64 {
    clamp_timestamp(now_timestamp())
}

} // verus!
