//! Password hashing for storage: a self-describing hash string that carries
//! the cost parameters, the salt and the derived key, and its check.
//!
//! `$rscrypt$<format>$<base64(log_n, r, p)>$<base64(salt)>$<base64(hash)>$`
//! where format `0` packs `log_n`, `r` and `p` in one byte each (when `r` and
//! `p` are below 256) and format `1` writes `r` and `p` as 32-bit
//! little-endian integers.
use vstd::prelude::*;
use vstd::string::{StringExecFns, StringSliceAdditionalSpecFns};
use crate::errors::CheckError;
use crate::outside::{
    base64_decode, base64_decoding, base64_encode, base64_encoding, ct_eq, fill_random,
};
use crate::params::{valid_params, ScryptParams};
use crate::salsa::le_word;
use crate::{output_len_ok, scrypt, scrypt_key};

verus! {

/// The encoded parameters: `[log_n, r, p]` when `r` and `p` fit in a byte,
/// else `log_n` followed by `r` and `p` as little-endian 32-bit words.
pub open spec fn param_bytes(log_n: u8, r: u32, p: u32) -> Seq<u8> {
    if r < 256 && p < 256 {
        seq![log_n, r as u8, p as u8]
    } else {
        seq![log_n] + crate::salsa::word_bytes(r) + crate::salsa::word_bytes(p)
    }
}

/// The hash string of the parameters, a salt and a derived key.
pub open spec fn hash_string(log_n: u8, r: u32, p: u32, salt: Seq<u8>, hash: Seq<u8>) -> Seq<char> {
    "$rscrypt$"@ + (if r < 256 && p < 256 {
        "0$"@
    } else {
        "1$"@
    }) + base64_encoding(param_bytes(log_n, r, p)) + "$"@ + base64_encoding(salt) + "$"@
        + base64_encoding(hash) + "$"@
}

/// Builds the hash string of `params`, `salt` and `hash`.
pub fn encode_hash(params: &ScryptParams, salt: &[u8], hash: &[u8]) -> (s: String)
    ensures
        s@ == hash_string(params.log_n_spec(), params.r_spec(), params.p_spec(), salt@, hash@),
{
    let log_n = params.log_n();
    let r = params.r();
    let p = params.p();
    let mut result = String::from_str("$rscrypt$");
    let mut pvec: Vec<u8> = Vec::new();
    pvec.push(log_n);
    if r < 256 && p < 256 {
        result.append("0$");
        pvec.push(r as u8);
        pvec.push(p as u8);
    } else {
        result.append("1$");
        pvec.push(r as u8);
        pvec.push((r >> 8u32) as u8);
        pvec.push((r >> 16u32) as u8);
        pvec.push((r >> 24u32) as u8);
        pvec.push(p as u8);
        pvec.push((p >> 8u32) as u8);
        pvec.push((p >> 16u32) as u8);
        pvec.push((p >> 24u32) as u8);
    }
    assert(pvec@ =~= param_bytes(log_n, r, p));
    let encoded = base64_encode(pvec.as_slice());
    result.append(encoded.as_str());
    result.append("$");
    let encoded = base64_encode(salt);
    result.append(encoded.as_str());
    result.append("$");
    let encoded = base64_encode(hash);
    result.append(encoded.as_str());
    result.append("$");
    result
}

/// Hashes `password` for storage with a fresh 128-bit salt from the operating
/// system's random source and a 256-bit key; fails only where that source does.
pub fn scrypt_simple(password: &str, params: &ScryptParams) -> (res: std::io::Result<String>)
    ensures
        res is Ok ==> exists|salt: Seq<u8>|
            salt.len() == 16 && res->Ok_0@ == hash_string(
                params.log_n_spec(),
                params.r_spec(),
                params.p_spec(),
                salt,
                scrypt_key(
                    password.spec_bytes(),
                    salt,
                    params.log_n_spec(),
                    params.r_spec(),
                    params.p_spec(),
                    32,
                ),
            ),
{
    let mut salt = vec![0u8; 16];
    match fill_random(salt.as_mut_slice()) {
        Ok(()) => {},
        Err(e) => {
            return Err(e);
        },
    }
    let mut dk = vec![0u8; 32];
    let derived = scrypt(password.as_bytes(), salt.as_slice(), params, dk.as_mut_slice());
    assert(derived is Ok);
    Ok(encode_hash(params, salt.as_slice(), dk.as_slice()))
}

/// The fields of `s` separated by `$`, as `str::split` gives them: one more
/// than the number of separators, each possibly empty.
pub open spec fn split_fields(s: Seq<u8>) -> Seq<Seq<u8>>
    decreases s.len(),
{
    if s.len() == 0 {
        seq![Seq::empty()]
    } else {
        let f = split_fields(s.drop_last());
        if s.last() == 36u8 {
            f.push(Seq::empty())
        } else {
            f.update(f.len() - 1, f.last().push(s.last()))
        }
    }
}

/// Splits `s` at each `$`.
pub fn split_hash_fields(s: &[u8]) -> (fields: Vec<Vec<u8>>)
    ensures
        fields@.len() == split_fields(s@).len(),
        forall|k: int| 0 <= k < fields@.len() ==> (#[trigger] fields@[k])@ == split_fields(s@)[k],
{
    let mut done: Vec<Vec<u8>> = Vec::new();
    let mut cur: Vec<u8> = Vec::new();
    let mut i: usize = 0;
    while i < s.len()
        invariant
            i <= s@.len(),
            split_fields(s@.subrange(0, i as int)).len() == done@.len() + 1,
            forall|k: int|
                0 <= k < done@.len() ==> (#[trigger] done@[k])@ == split_fields(
                    s@.subrange(0, i as int),
                )[k],
            cur@ == split_fields(s@.subrange(0, i as int)).last(),
        decreases s@.len() - i,
    {
        let ghost prev = s@.subrange(0, i as int);
        assert(s@.subrange(0, i + 1).drop_last() =~= prev);
        if s[i] == 36u8 {
            let c = cur;
            done.push(c);
            cur = Vec::new();
        } else {
            cur.push(s[i]);
        }
        i = i + 1;
    }
    assert(s@.subrange(0, s@.len() as int) =~= s@);
    done.push(cur);
    done
}

/// The parameters that a format field and the decoded parameter bytes describe.
pub open spec fn params_of_fields(format: Seq<u8>, pvec: Seq<u8>) -> Option<(u8, u32, u32)> {
    if format == seq![48u8] && pvec.len() == 3 {
        Some((pvec[0], pvec[1] as u32, pvec[2] as u32))
    } else if format == seq![49u8] && pvec.len() == 9 {
        Some((pvec[0], le_word(pvec, 1), le_word(pvec, 5)))
    } else {
        None
    }
}

/// Reads the parameters of a hash string from its format field and its
/// decoded parameter bytes; `None` where they do not describe valid parameters.
pub fn params_from_fields(format: &[u8], pvec: &[u8]) -> (res: Option<ScryptParams>)
    ensures
        match params_of_fields(format@, pvec@) {
            Some((log_n, r, p)) => if valid_params(log_n, r, p) {
                res is Some && res->Some_0.log_n_spec() == log_n && res->Some_0.r_spec() == r
                    && res->Some_0.p_spec() == p
            } else {
                res is None
            },
            None => res is None,
        },
{
    let compact = format.len() == 1 && format[0] == 48u8;
    let expanded = format.len() == 1 && format[0] == 49u8;
    assert(compact <==> format@ == seq![48u8]) by {
        if format@.len() == 1 && format@[0] == 48u8 {
            assert(format@ =~= seq![48u8]);
        }
    }
    assert(expanded <==> format@ == seq![49u8]) by {
        if format@.len() == 1 && format@[0] == 49u8 {
            assert(format@ =~= seq![49u8]);
        }
    }
    let parsed = if compact && pvec.len() == 3 {
        ScryptParams::new(pvec[0], pvec[1] as u32, pvec[2] as u32)
    } else if expanded && pvec.len() == 9 {
        let r = (pvec[1] as u32) | ((pvec[2] as u32) << 8u32) | ((pvec[3] as u32) << 16u32) | ((
        pvec[4] as u32) << 24u32);
        let p = (pvec[5] as u32) | ((pvec[6] as u32) << 8u32) | ((pvec[7] as u32) << 16u32) | ((
        pvec[8] as u32) << 24u32);
        ScryptParams::new(pvec[0], r, p)
    } else {
        return None;
    };
    match parsed {
        Ok(params) => Some(params),
        Err(_) => None,
    }
}

/// The outcome of checking `password` against the hash string `s`.
pub open spec fn check_outcome(password: Seq<u8>, s: Seq<u8>) -> Result<(), CheckError> {
    let f = split_fields(s);
    if f.len() != 7 || f[0].len() != 0 || f[1] != seq![114u8, 115u8, 99u8, 114u8, 121u8, 112u8, 116u8]
        || f[6].len() != 0 {
        Err(CheckError::InvalidFormat)
    } else {
        match (base64_decoding(f[3]), base64_decoding(f[4]), base64_decoding(f[5])) {
            (Some(pvec), Some(salt), Some(hash)) => match params_of_fields(f[2], pvec) {
                Some((log_n, r, p)) => if !valid_params(log_n, r, p) || !output_len_ok(hash.len()) {
                    Err(CheckError::InvalidFormat)
                } else if scrypt_key(password, salt, log_n, r, p, hash.len()) == hash {
                    Ok(())
                } else {
                    Err(CheckError::HashMismatch)
                },
                None => Err(CheckError::InvalidFormat),
            },
            _ => Err(CheckError::InvalidFormat),
        }
    }
}

fn is_tag(f: &[u8]) -> (r: bool)
    ensures
        r == (f@ == seq![114u8, 115u8, 99u8, 114u8, 121u8, 112u8, 116u8]),
{
    let tag: Vec<u8> = vec![114u8, 115u8, 99u8, 114u8, 121u8, 112u8, 116u8];
    assert(tag@ =~= seq![114u8, 115u8, 99u8, 114u8, 121u8, 112u8, 116u8]);
    ct_eq(f, tag.as_slice())
}

/// Checks `password` against a hash string made by `scrypt_simple`: `Ok` when
/// it hashes to the stored key, `HashMismatch` when it does not, and
/// `InvalidFormat` when the string is malformed, truncated, has trailing data,
/// or holds invalid parameters or key length. The keys are compared in
/// constant time.
pub fn scrypt_check(password: &str, hashed_value: &str) -> (res: Result<(), CheckError>)
    ensures
        res == check_outcome(password.spec_bytes(), hashed_value.spec_bytes()),
{
    let fields = split_hash_fields(hashed_value.as_bytes());
    if fields.len() != 7 {
        return Err(CheckError::InvalidFormat);
    }
    if fields[0].len() != 0 || !is_tag(fields[1].as_slice()) || fields[6].len() != 0 {
        return Err(CheckError::InvalidFormat);
    }
    let pvec = match base64_decode(fields[3].as_slice()) {
        Some(v) => v,
        None => {
            return Err(CheckError::InvalidFormat);
        },
    };
    let salt = match base64_decode(fields[4].as_slice()) {
        Some(v) => v,
        None => {
            return Err(CheckError::InvalidFormat);
        },
    };
    let hash = match base64_decode(fields[5].as_slice()) {
        Some(v) => v,
        None => {
            return Err(CheckError::InvalidFormat);
        },
    };
    let params = match params_from_fields(fields[2].as_slice(), pvec.as_slice()) {
        Some(p) => p,
        None => {
            return Err(CheckError::InvalidFormat);
        },
    };
    let mut output = vec![0u8; hash.len()];
    match scrypt(password.as_bytes(), salt.as_slice(), &params, output.as_mut_slice()) {
        Ok(()) => {},
        Err(_) => {
            return Err(CheckError::InvalidFormat);
        },
    }
    if ct_eq(output.as_slice(), hash.as_slice()) {
        Ok(())
    } else {
        Err(CheckError::HashMismatch)
    }
}

} // verus!
