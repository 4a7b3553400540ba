//! The scrypt key derivation function: a memory-hard construction built from
//! PBKDF2-HMAC-SHA256, the ROMix / BlockMix transforms and the Salsa20/8 core.
use vstd::prelude::*;

pub mod errors;
pub mod params;
pub mod salsa;
pub mod romix;
pub mod outside;
pub mod simple;

pub use params::ScryptParams;
pub use simple::{scrypt_check, scrypt_simple};

use vstd::arithmetic::power2::pow2;
use errors::InvalidOutputLen;
use outside::{pbkdf2_hmac_sha256, pbkdf2_sha256};
use params::MAX_OUTPUT_LEN;
use romix::{mix_blocks, scrypt_mix_blocks};

verus! {

/// The output lengths that scrypt accepts: `0 < len <= (2^32 - 1) * 32`.
pub open spec fn output_len_ok(len: nat) -> bool {
    0 < len <= MAX_OUTPUT_LEN
}

/// The `p` blocks of `128 * r` bytes after the memory-hard step: PBKDF2 with
/// one iteration expands password and salt, and ROMix with cost `2^log_n`
/// mixes each block.
pub open spec fn scrypt_mixed(password: Seq<u8>, salt: Seq<u8>, log_n: u8, r: u32, p: u32) -> Seq<u8> {
    let block_len = (128 * r) as nat;
    let b = pbkdf2_hmac_sha256(password, salt, 1, (p * block_len) as nat);
    mix_blocks(b, block_len, pow2(log_n as nat), p as nat)
}

/// The scrypt key of `len` bytes: PBKDF2 with one iteration, keyed by the
/// password, over the mixed blocks as salt.
pub open spec fn scrypt_key(password: Seq<u8>, salt: Seq<u8>, log_n: u8, r: u32, p: u32, len: nat) -> Seq<u8> {
    pbkdf2_hmac_sha256(password, scrypt_mixed(password, salt, log_n, r, p), 1, len)
}

/// Derivation is deterministic: two keys derived from the same password,
/// salt, parameters and length are the same bytes.
pub proof fn lemma_scrypt_deterministic(
    password: Seq<u8>,
    salt: Seq<u8>,
    params: ScryptParams,
    len: nat,
    first: Seq<u8>,
    second: Seq<u8>,
)
    requires
        first == scrypt_key(password, salt, params.log_n_spec(), params.r_spec(), params.p_spec(), len),
        second == scrypt_key(password, salt, params.log_n_spec(), params.r_spec(), params.p_spec(), len),
    ensures
        first == second,
{
}

/// The scrypt key derivation function: fills `output` with the key derived
/// from `password` and `salt`, or fails with `InvalidOutputLen`, leaving
/// `output` as it was, where its length is zero or over `(2^32 - 1) * 32`.
pub fn scrypt(password: &[u8], salt: &[u8], params: &ScryptParams, output: &mut [u8]) -> (res:
    Result<(), InvalidOutputLen>)
    ensures
        res is Ok <==> output_len_ok(old(output)@.len()),
        res is Ok ==> final(output)@ == scrypt_key(
            password@,
            salt@,
            params.log_n_spec(),
            params.r_spec(),
            params.p_spec(),
            old(output)@.len(),
        ),
        res is Err ==> final(output)@ == old(output)@,
        final(output)@.len() == old(output)@.len(),
{
    let len = output.len();
    if len == 0 || len as u64 > MAX_OUTPUT_LEN {
        return Err(InvalidOutputLen);
    }
    let p = params.p();
    let n = params.n();
    let r128 = params.block_len();
    let pr128 = (p as usize) * r128;
    let mut b = vec![0u8; pr128];
    pbkdf2_sha256(password, salt, 1, b.as_mut_slice());
    let mixed = scrypt_mix_blocks(b.as_slice(), r128, n, p as usize);
    pbkdf2_sha256(password, mixed.as_slice(), 1, output);
    Ok(())
}

} // verus!
