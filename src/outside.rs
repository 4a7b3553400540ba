//! The calls into outside crates that the library relies on, with what is
//! assumed of each.
use vstd::prelude::*;

verus! {

/// PBKDF2 with HMAC-SHA256 as pseudorandom function: the `len` bytes derived
/// from `password` and `salt` with `rounds` iterations.
pub uninterp spec fn pbkdf2_hmac_sha256(password: Seq<u8>, salt: Seq<u8>, rounds: u32, len: nat) -> Seq<u8>;

/// Relies on `pbkdf2::pbkdf2_hmac::<sha2::Sha256>`: it overwrites the whole of
/// `out` with the first `out.len()` bytes of PBKDF2-HMAC-SHA256 of `password`
/// and `salt`, a function of its arguments and of that length alone. Its block
/// counter is a `u32` computed as `i + 1`, so `out` holds at most
/// `(2^32 - 1) * 32` bytes.
#[verifier::external_body]
pub(crate) fn pbkdf2_sha256(password: &[u8], salt: &[u8], rounds: u32, out: &mut [u8])
    requires
        old(out)@.len() <= crate::params::MAX_OUTPUT_LEN,
    ensures
        final(out)@ == pbkdf2_hmac_sha256(password@, salt@, rounds, old(out)@.len()),
        final(out)@.len() == old(out)@.len(),
{
    pbkdf2::pbkdf2_hmac::<sha2::Sha256>(password, salt, rounds, out)
}

#[verifier::external_type_specification]
#[verifier::external_body]
pub struct ExIoError(std::io::Error);

/// Relies on `rand::rngs::OsRng` through `RngCore::try_fill_bytes`: on success
/// every byte of `buf` has been written with bytes from the operating system's
/// random source; its `rand::Error` is turned into an `io::Error` by the `From`
/// impl of `rand_core`. Nothing is assumed of the bytes themselves.
#[verifier::external_body]
pub(crate) fn fill_random(buf: &mut [u8]) -> (res: Result<(), std::io::Error>)
    ensures
        final(buf)@.len() == old(buf)@.len(),
{
    rand::RngCore::try_fill_bytes(&mut rand::rngs::OsRng, buf).map_err(std::io::Error::from)
}

/// Standard base64 (with padding) of a byte sequence.
pub uninterp spec fn base64_encoding(b: Seq<u8>) -> Seq<char>;

/// Relies on `base64::encode`: the standard, padded base64 text of `b`, a
/// function of the bytes alone.
#[verifier::external_body]
pub(crate) fn base64_encode(b: &[u8]) -> (r: String)
    ensures
        r@ == base64_encoding(b@),
{
    base64::encode(b)
}

/// The bytes that standard base64 text decodes to, or `None` where the text is
/// not valid base64.
pub uninterp spec fn base64_decoding(text: Seq<u8>) -> Option<Seq<u8>>;

/// Relies on `base64::decode`: the decoded bytes of the standard base64 text,
/// or a `DecodeError` (mapped to `None`) where the text is invalid; a function
/// of the text alone.
#[verifier::external_body]
pub(crate) fn base64_decode(text: &[u8]) -> (r: Option<Vec<u8>>)
    ensures
        match base64_decoding(text@) {
            Some(d) => r is Some && r->Some_0@ == d,
            None => r is None,
        },
{
    match base64::decode(text) {
        Ok(v) => Some(v),
        Err(_) => None,
    }
}

/// Relies on `constant_time_eq::constant_time_eq`: true exactly when the two
/// slices have the same length and the same bytes, compared in time that does
/// not depend on where they differ.
#[verifier::external_body]
pub(crate) fn ct_eq(a: &[u8], b: &[u8]) -> (r: bool)
    ensures
        r == (a@ == b@),
{
    constant_time_eq::constant_time_eq(a, b)
}

} // verus!
