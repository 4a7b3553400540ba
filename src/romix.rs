//! BlockMix and ROMix, the memory-hard mixing transforms of scrypt.
use vstd::prelude::*;
use crate::salsa::{salsa20_8, salsa20_8_core};

verus! {

/// Byte-wise exclusive or of two sequences of equal length.
pub open spec fn xor_bytes(a: Seq<u8>, b: Seq<u8>) -> Seq<u8> {
    Seq::new(a.len(), |k: int| a[k] ^ b[k])
}

/// The `i`-th 64-byte sub-block of `b`.
pub open spec fn sub_block(b: Seq<u8>, i: int) -> Seq<u8> {
    b.subrange(64 * i, 64 * i + 64)
}

/// The running value of BlockMix after sub-block `i` has been absorbed: the
/// Salsa20/8 image of the previous value (the last sub-block, before the first)
/// xored with sub-block `i`.
pub open spec fn mix_chain(b: Seq<u8>, i: nat) -> Seq<u8>
    decreases i,
{
    if i == 0 {
        salsa20_8(xor_bytes(sub_block(b, b.len() / 64 - 1), sub_block(b, 0)))
    } else {
        salsa20_8(xor_bytes(mix_chain(b, (i - 1) as nat), sub_block(b, i as int)))
    }
}

/// The chain values `start`, `start + 2`, ..., `start + 2 * (count - 1)`, concatenated.
pub open spec fn chain_gather(b: Seq<u8>, start: nat, count: nat) -> Seq<u8>
    decreases count,
{
    if count == 0 {
        Seq::empty()
    } else {
        chain_gather(b, start, (count - 1) as nat) + mix_chain(b, start + 2 * (count - 1) as nat)
    }
}

/// BlockMix of a block of `2r` sub-blocks: the chain values of the even
/// positions, in order, followed by those of the odd positions.
pub open spec fn block_mix(b: Seq<u8>) -> Seq<u8> {
    chain_gather(b, 0, b.len() / 128) + chain_gather(b, 1, b.len() / 128)
}

pub proof fn lemma_mix_chain_len(b: Seq<u8>, i: nat)
    ensures
        mix_chain(b, i).len() == 64,
{
    if i == 0 {
        lemma_salsa_len(xor_bytes(sub_block(b, b.len() / 64 - 1), sub_block(b, 0)));
    } else {
        lemma_salsa_len(xor_bytes(mix_chain(b, (i - 1) as nat), sub_block(b, i as int)));
    }
}

pub proof fn lemma_chain_gather_len(b: Seq<u8>, start: nat, count: nat)
    ensures
        chain_gather(b, start, count).len() == 64 * count,
    decreases count,
{
    if count > 0 {
        lemma_chain_gather_len(b, start, (count - 1) as nat);
        lemma_mix_chain_len(b, start + 2 * (count - 1) as nat);
    }
}

pub proof fn lemma_salsa_len(x: Seq<u8>)
    ensures
        salsa20_8(x).len() == 64,
{
    let w = crate::salsa::block_words(x);
    let y = crate::salsa::double_rounds(w, 4);
    crate::salsa::lemma_words_bytes_len(Seq::new(16, |i: int| w[i].wrapping_add(y[i])));
}

pub proof fn lemma_block_mix_len(b: Seq<u8>)
    requires
        b.len() % 128 == 0,
    ensures
        block_mix(b).len() == b.len(),
{
    lemma_chain_gather_len(b, 0, b.len() / 128);
    lemma_chain_gather_len(b, 1, b.len() / 128);
}

/// `i` applications of BlockMix to `b`: the `i`-th entry of the scratch array.
pub open spec fn mix_iter(b: Seq<u8>, i: nat) -> Seq<u8>
    decreases i,
{
    if i == 0 {
        b
    } else {
        block_mix(mix_iter(b, (i - 1) as nat))
    }
}

pub proof fn lemma_mix_iter_len(b: Seq<u8>, i: nat)
    requires
        b.len() % 128 == 0,
    ensures
        mix_iter(b, i).len() == b.len(),
    decreases i,
{
    if i > 0 {
        lemma_mix_iter_len(b, (i - 1) as nat);
        lemma_block_mix_len(mix_iter(b, (i - 1) as nat));
    }
}

/// The little-endian 64-bit integer of the eight bytes of `s` from `off`.
pub open spec fn le_u64_at(s: Seq<u8>, off: int) -> u64 {
    (s[off] as u64) | ((s[off + 1] as u64) << 8u64) | ((s[off + 2] as u64) << 16u64) | ((s[off
        + 3] as u64) << 24u64) | ((s[off + 4] as u64) << 32u64) | ((s[off + 5] as u64) << 40u64)
        | ((s[off + 6] as u64) << 48u64) | ((s[off + 7] as u64) << 56u64)
}

/// Integerify: the last sub-block of `x` read as a little-endian integer, modulo `n`.
/// Only its low 64 bits are read; for `n` a power of two that fits in 64 bits
/// these are all the bits that the residue depends on.
pub open spec fn integerify(x: Seq<u8>, n: nat) -> nat {
    (le_u64_at(x, x.len() - 64) as int % n as int) as nat
}

/// The running value of ROMix after `k` steps of its random-access phase.
pub open spec fn ro_mix_state(b: Seq<u8>, n: nat, k: nat) -> Seq<u8>
    decreases k,
{
    if k == 0 {
        mix_iter(b, n)
    } else {
        let x = ro_mix_state(b, n, (k - 1) as nat);
        block_mix(xor_bytes(x, mix_iter(b, integerify(x, n))))
    }
}

/// ROMix of the block `b` with cost `n`.
pub open spec fn ro_mix(b: Seq<u8>, n: nat) -> Seq<u8> {
    ro_mix_state(b, n, n)
}

pub proof fn lemma_ro_mix_state_len(b: Seq<u8>, n: nat, k: nat)
    requires
        b.len() % 128 == 0,
        n > 0,
    ensures
        ro_mix_state(b, n, k).len() == b.len(),
    decreases k,
{
    lemma_mix_iter_len(b, n);
    if k > 0 {
        let x = ro_mix_state(b, n, (k - 1) as nat);
        lemma_ro_mix_state_len(b, n, (k - 1) as nat);
        let y = xor_bytes(x, mix_iter(b, integerify(x, n)));
        lemma_block_mix_len(y);
    }
}

fn append_bytes(dst: &mut Vec<u8>, src: &[u8])
    ensures
        final(dst)@ == old(dst)@ + src@,
{
    let ghost d0 = dst@;
    let mut i: usize = 0;
    while i < src.len()
        invariant
            i <= src@.len(),
            dst@ == d0 + src@.subrange(0, i as int),
        decreases src@.len() - i,
    {
        dst.push(src[i]);
        i = i + 1;
        assert(dst@ =~= d0 + src@.subrange(0, i as int));
    }
    assert(src@.subrange(0, src@.len() as int) =~= src@);
}

fn xor_block(a: &[u8], b: &[u8]) -> (r: Vec<u8>)
    requires
        a@.len() == b@.len(),
    ensures
        r@ == xor_bytes(a@, b@),
{
    let mut r: Vec<u8> = Vec::new();
    let mut i: usize = 0;
    while i < a.len()
        invariant
            a@.len() == b@.len(),
            i <= a@.len(),
            r@.len() == i,
            forall|k: int| 0 <= k < i ==> r@[k] == a@[k] ^ b@[k],
        decreases a@.len() - i,
    {
        r.push(a[i] ^ b[i]);
        i = i + 1;
    }
    assert(r@ =~= xor_bytes(a@, b@));
    r
}

/// BlockMix of `input`, a block of `2r` sub-blocks of 64 bytes.
pub fn scrypt_block_mix(input: &[u8]) -> (out: Vec<u8>)
    requires
        input@.len() > 0,
        input@.len() % 128 == 0,
    ensures
        out@ == block_mix(input@),
{
    let len = input.len();
    let two_r = len / 64;
    let mut x: Vec<u8> = Vec::new();
    append_bytes(&mut x, &input[len - 64..len]);
    let mut evens: Vec<u8> = Vec::new();
    let mut odds: Vec<u8> = Vec::new();
    let mut i: usize = 0;
    while i < two_r
        invariant
            len == input@.len(),
            len > 0,
            len % 128 == 0,
            two_r == len / 64,
            i <= two_r,
            x@.len() == 64,
            i == 0 ==> x@ == sub_block(input@, len / 64 - 1),
            i > 0 ==> x@ == mix_chain(input@, (i - 1) as nat),
            evens@ == chain_gather(input@, 0, ((i + 1) / 2) as nat),
            odds@ == chain_gather(input@, 1, (i / 2) as nat),
        decreases two_r - i,
    {
        let ghost b = input@;
        let ghost prev = x@;
        let t = xor_block(x.as_slice(), &input[64 * i..64 * i + 64]);
        assert(t@ == xor_bytes(prev, sub_block(b, i as int)));
        x = salsa20_8_core(t.as_slice());
        assert(x@ == mix_chain(b, i as nat));
        proof {
            lemma_mix_chain_len(b, i as nat);
        }
        if i % 2 == 0 {
            let ghost m = i / 2;
            assert((i + 1) / 2 == m && (i + 2) / 2 == m + 1 && i == 0 + 2 * m);
            append_bytes(&mut evens, x.as_slice());
            assert(evens@ == chain_gather(b, 0, (m + 1) as nat));
        } else {
            let ghost m = i / 2;
            assert((i + 1) / 2 == m + 1 && (i + 2) / 2 == m + 1 && i == 1 + 2 * m);
            append_bytes(&mut odds, x.as_slice());
            assert(odds@ == chain_gather(b, 1, (m + 1) as nat));
        }
        i = i + 1;
    }
    evens.append(&mut odds);
    evens
}

fn read_u64_at(s: &[u8], off: usize) -> (r: u64)
    requires
        off + 8 <= s@.len(),
    ensures
        r == le_u64_at(s@, off as int),
{
    (s[off] as u64) | ((s[off + 1] as u64) << 8u64) | ((s[off + 2] as u64) << 16u64) | ((s[off
        + 3] as u64) << 24u64) | ((s[off + 4] as u64) << 32u64) | ((s[off + 5] as u64) << 40u64)
        | ((s[off + 6] as u64) << 48u64) | ((s[off + 7] as u64) << 56u64)
}

fn integerify_index(x: &[u8], n: usize) -> (j: usize)
    requires
        x@.len() >= 64,
        n > 0,
    ensures
        j == integerify(x@, n as nat),
        j < n,
{
    let v = read_u64_at(x, x.len() - 64);
    (v % (n as u64)) as usize
}

/// ROMix of `block` with cost `n`: a scratch array of `n` successive BlockMix
/// images of the block is filled, then `n` steps each xor the running value
/// with the entry that Integerify selects and apply BlockMix.
pub fn scrypt_ro_mix(block: &[u8], n: usize) -> (out: Vec<u8>)
    requires
        block@.len() > 0,
        block@.len() % 128 == 0,
        n > 0,
    ensures
        out@ == ro_mix(block@, n as nat),
{
    let ghost b = block@;
    let mut v: Vec<Vec<u8>> = Vec::new();
    let mut x: Vec<u8> = Vec::new();
    append_bytes(&mut x, block);
    let mut i: usize = 0;
    while i < n
        invariant
            b.len() > 0,
            b.len() % 128 == 0,
            i <= n,
            v@.len() == i,
            forall|j: int| 0 <= j < i ==> (#[trigger] v@[j])@ == mix_iter(b, j as nat),
            x@ == mix_iter(b, i as nat),
        decreases n - i,
    {
        proof {
            lemma_mix_iter_len(b, i as nat);
        }
        let y = scrypt_block_mix(x.as_slice());
        v.push(x);
        x = y;
        i = i + 1;
    }
    let mut k: usize = 0;
    while k < n
        invariant
            b.len() > 0,
            b.len() % 128 == 0,
            n > 0,
            k <= n,
            v@.len() == n,
            forall|j: int| 0 <= j < n ==> (#[trigger] v@[j])@ == mix_iter(b, j as nat),
            x@ == ro_mix_state(b, n as nat, k as nat),
        decreases n - k,
    {
        proof {
            lemma_ro_mix_state_len(b, n as nat, k as nat);
        }
        let j = integerify_index(x.as_slice(), n);
        proof {
            lemma_mix_iter_len(b, j as nat);
        }
        let t = xor_block(x.as_slice(), v[j].as_slice());
        proof {
            lemma_block_mix_len(xor_bytes(x@, v@[j as int]@));
        }
        x = scrypt_block_mix(t.as_slice());
        k = k + 1;
    }
    x
}

/// ROMix applied to each of the first `count` blocks of `block_len` bytes of
/// `b`, the results concatenated in order.
pub open spec fn mix_blocks(b: Seq<u8>, block_len: nat, n: nat, count: nat) -> Seq<u8>
    decreases count,
{
    if count == 0 {
        Seq::empty()
    } else {
        mix_blocks(b, block_len, n, (count - 1) as nat) + ro_mix(
            b.subrange((count - 1) * block_len, (count * block_len) as int),
            n,
        )
    }
}

proof fn lemma_block_bounds(c: int, p: int, len: int)
    requires
        0 <= c < p,
        len > 0,
    ensures
        0 <= c * len,
        c * len + len <= p * len,
        (c + 1) * len == c * len + len,
{
    assert(0 <= c * len) by (nonlinear_arith)
        requires
            0 <= c,
            len > 0,
    ;
    assert((c + 1) * len <= p * len) by (nonlinear_arith)
        requires
            c < p,
            len > 0,
    ;
    assert((c + 1) * len == c * len + len) by (nonlinear_arith);
}

/// ROMix with cost `n` on each of the `p` consecutive blocks of `block_len`
/// bytes that make up `b`.
pub fn scrypt_mix_blocks(b: &[u8], block_len: usize, n: usize, p: usize) -> (out: Vec<u8>)
    requires
        block_len > 0,
        block_len % 128 == 0,
        n > 0,
        b@.len() == p * block_len,
    ensures
        out@ == mix_blocks(b@, block_len as nat, n as nat, p as nat),
{
    let total = b.len();
    let mut out: Vec<u8> = Vec::new();
    let mut c: usize = 0;
    while c < p
        invariant
            total == b@.len(),
            block_len > 0,
            block_len % 128 == 0,
            n > 0,
            b@.len() == p * block_len,
            c <= p,
            out@ == mix_blocks(b@, block_len as nat, n as nat, c as nat),
        decreases p - c,
    {
        proof {
            lemma_block_bounds(c as int, p as int, block_len as int);
        }
        let start = c * block_len;
        let block = &b[start..start + block_len];
        let mixed = scrypt_ro_mix(block, n);
        append_bytes(&mut out, mixed.as_slice());
        c = c + 1;
    }
    out
}

pub proof fn lemma_mix_blocks_len(b: Seq<u8>, block_len: nat, n: nat, count: nat)
    requires
        block_len > 0,
        block_len % 128 == 0,
        n > 0,
        b.len() >= count * block_len,
    ensures
        mix_blocks(b, block_len, n, count).len() == count * block_len,
    decreases count,
{
    if count > 0 {
        let c = (count - 1) as nat;
        lemma_block_bounds(c as int, count as int, block_len as int);
        lemma_mix_blocks_len(b, block_len, n, c);
        let cl = (c * block_len) as int;
        let tl = (count * block_len) as int;
        assert(c + 1 == count);
        assert(tl == cl + block_len);
        lemma_ro_mix_state_len(b.subrange(cl, tl), n, n);
        assert(ro_mix(b.subrange(cl, tl), n).len() == block_len);
        assert(mix_blocks(b, block_len, n, count) == mix_blocks(b, block_len, n, c) + ro_mix(
            b.subrange(cl, tl),
            n,
        ));
    } else {
        assert(count * block_len == 0) by (nonlinear_arith)
            requires
                count == 0,
        ;
    }
}

/// The blocks are mixed independently: block `i` of the result is ROMix of
/// block `i` of the input alone, so the blocks may be processed in any order,
/// or concurrently, with the same result.
#[verifier::rlimit(60)]
pub proof fn lemma_mix_blocks_independent(b: Seq<u8>, block_len: nat, n: nat, count: nat, i: nat)
    requires
        block_len > 0,
        block_len % 128 == 0,
        n > 0,
        b.len() >= count * block_len,
        i < count,
    ensures
        mix_blocks(b, block_len, n, count).subrange((i * block_len) as int, ((i + 1) * block_len) as int)
            == ro_mix(b.subrange((i * block_len) as int, ((i + 1) * block_len) as int), n),
    decreases count,
{
    let c = (count - 1) as nat;
    lemma_block_bounds(c as int, count as int, block_len as int);
    lemma_block_bounds(i as int, count as int, block_len as int);
    lemma_mix_blocks_len(b, block_len, n, c);
    let lo = (i * block_len) as int;
    let hi = ((i + 1) * block_len) as int;
    let cl = (c * block_len) as int;
    let tl = (count * block_len) as int;
    let prefix = mix_blocks(b, block_len, n, c);
    let last = ro_mix(b.subrange(cl, tl), n);
    lemma_ro_mix_state_len(b.subrange(cl, tl), n, n);
    assert(mix_blocks(b, block_len, n, count) == prefix + last);
    if i == c {
        assert(lo == cl && hi == tl);
        assert((prefix + last).subrange(lo, hi) =~= last);
    } else {
        lemma_block_bounds(i as int, c as int, block_len as int);
        assert(hi <= cl);
        lemma_mix_blocks_independent(b, block_len, n, c, i);
        assert((prefix + last).subrange(lo, hi) =~= prefix.subrange(lo, hi));
    }
}

} // verus!
