//! Validated scrypt cost parameters.
use vstd::prelude::*;
use vstd::arithmetic::power2::pow2;
use crate::errors::InvalidParams;

verus! {

/// The largest output, in bytes, that PBKDF2-HMAC-SHA256 can produce:
/// `(2^32 - 1)` blocks of 32 bytes.
pub const MAX_OUTPUT_LEN: u64 = 0xffff_ffff * 32;

/// The parameter domain: `r` and `p` positive, `n = 2^log_n`, a block of
/// `128 * r` bytes, the scratch array of `n` blocks and the expanded buffer of
/// `p` blocks all addressable, and the expanded buffer within reach of PBKDF2.
pub open spec fn valid_params(log_n: u8, r: u32, p: u32) -> bool {
    &&& r > 0
    &&& p > 0
    &&& (log_n as nat) < usize::BITS as nat
    &&& 128 * r <= usize::MAX
    &&& pow2(log_n as nat) * (128 * r) <= usize::MAX
    &&& p * (128 * r) <= usize::MAX
    &&& p * (128 * r) <= MAX_OUTPUT_LEN
}

/// The scrypt cost parameters `log_n` (`n = 2^log_n`), `r` and `p`.
#[derive(Debug, Clone, Copy)]
pub struct ScryptParams {
    log_n: u8,
    r: u32,
    p: u32,
}

impl ScryptParams {
    #[verifier::type_invariant]
    spec fn inv(&self) -> bool {
        valid_params(self.log_n, self.r, self.p)
    }

    pub closed spec fn log_n_spec(&self) -> u8 {
        self.log_n
    }

    pub closed spec fn r_spec(&self) -> u32 {
        self.r
    }

    pub closed spec fn p_spec(&self) -> u32 {
        self.p
    }

    /// Checks the parameters and builds them; `InvalidParams` exactly when
    /// they lie outside the domain of `valid_params`.
    pub fn new(log_n: u8, r: u32, p: u32) -> (res: Result<ScryptParams, InvalidParams>)
        ensures
            valid_params(log_n, r, p) <==> res is Ok,
            res is Ok ==> res->Ok_0.log_n_spec() == log_n && res->Ok_0.r_spec() == r
                && res->Ok_0.p_spec() == p,
    {
        if r == 0 || p == 0 {
            return Err(InvalidParams);
        }
        if log_n as u32 >= usize::BITS {
            return Err(InvalidParams);
        }
        let n: usize = 1usize << log_n as usize;
        proof {
            vstd::bits::lemma_usize_pow2_no_overflow(log_n as nat);
            vstd::bits::lemma_usize_shl_is_mul(1, log_n as usize);
        }
        let r128 = match (r as usize).checked_mul(128) {
            Some(v) => v,
            None => {
                return Err(InvalidParams);
            },
        };
        let nr128 = n.checked_mul(r128);
        if nr128.is_none() {
            return Err(InvalidParams);
        }
        let pr128 = match (p as usize).checked_mul(r128) {
            Some(v) => v,
            None => {
                return Err(InvalidParams);
            },
        };
        if pr128 as u64 > MAX_OUTPUT_LEN {
            return Err(InvalidParams);
        }
        Ok(ScryptParams { log_n, r, p })
    }

    /// `log_n`, the base-2 logarithm of the cost `n`.
    pub fn log_n(&self) -> (v: u8)
        ensures
            v == self.log_n_spec(),
            valid_params(self.log_n_spec(), self.r_spec(), self.p_spec()),
    {
        proof {
            use_type_invariant(self);
        }
        self.log_n
    }

    /// The cost `n = 2^log_n`: the number of blocks in the scratch array.
    pub fn n(&self) -> (v: usize)
        ensures
            v == pow2(self.log_n_spec() as nat),
            v > 0,
    {
        proof {
            use_type_invariant(self);
            vstd::bits::lemma_usize_pow2_no_overflow(self.log_n as nat);
            vstd::bits::lemma_usize_shl_is_mul(1, self.log_n as usize);
        }
        1usize << self.log_n as usize
    }

    /// The size in bytes of one block, `128 * r`.
    pub fn block_len(&self) -> (v: usize)
        ensures
            v == 128 * self.r_spec(),
    {
        proof {
            use_type_invariant(self);
        }
        (self.r as usize) * 128
    }

    /// The block size factor `r`.
    pub fn r(&self) -> (v: u32)
        ensures
            v == self.r_spec(),
            valid_params(self.log_n_spec(), self.r_spec(), self.p_spec()),
    {
        proof {
            use_type_invariant(self);
        }
        self.r
    }

    /// The parallelization factor `p`.
    pub fn p(&self) -> (v: u32)
        ensures
            v == self.p_spec(),
            valid_params(self.log_n_spec(), self.r_spec(), self.p_spec()),
    {
        proof {
            use_type_invariant(self);
        }
        self.p
    }
}

} // verus!
