//! The Salsa20/8 core permutation over one 64-byte block.
use vstd::prelude::*;

verus! {

/// Rotation of a 32-bit word to the left by `k` bits (`0 < k < 32`).
pub open spec fn rotl(v: u32, k: u32) -> u32 {
    (v << k) | (v >> ((32 - k) as u32))
}

/// One add-rotate-xor step: `x[t] ^= rotl(x[a] + x[b], k)`.
pub open spec fn arx(x: Seq<u32>, t: int, a: int, b: int, k: u32) -> Seq<u32> {
    x.update(t, x[t] ^ rotl(x[a].wrapping_add(x[b]), k))
}

/// The Salsa quarter-round on the words at indices `a`, `b`, `c`, `d`.
pub open spec fn quarter_round(x: Seq<u32>, a: int, b: int, c: int, d: int) -> Seq<u32> {
    let x1 = arx(x, b, a, d, 7);
    let x2 = arx(x1, c, b, a, 9);
    let x3 = arx(x2, d, c, b, 13);
    arx(x3, a, d, c, 18)
}

/// A column round followed by a row round.
pub open spec fn double_round(x: Seq<u32>) -> Seq<u32> {
    let c1 = quarter_round(x, 0, 4, 8, 12);
    let c2 = quarter_round(c1, 5, 9, 13, 1);
    let c3 = quarter_round(c2, 10, 14, 2, 6);
    let c4 = quarter_round(c3, 15, 3, 7, 11);
    let r1 = quarter_round(c4, 0, 1, 2, 3);
    let r2 = quarter_round(r1, 5, 6, 7, 4);
    let r3 = quarter_round(r2, 10, 11, 8, 9);
    quarter_round(r3, 15, 12, 13, 14)
}

/// `k` double rounds applied to `x`.
pub open spec fn double_rounds(x: Seq<u32>, k: nat) -> Seq<u32>
    decreases k,
{
    if k == 0 {
        x
    } else {
        double_round(double_rounds(x, (k - 1) as nat))
    }
}

/// The little-endian 32-bit word of `s` that starts at byte `off`.
pub open spec fn le_word(s: Seq<u8>, off: int) -> u32 {
    (s[off] as u32) | ((s[off + 1] as u32) << 8u32) | ((s[off + 2] as u32) << 16u32) | ((
    s[off + 3] as u32) << 24u32)
}

/// The sixteen little-endian words of a 64-byte block.
pub open spec fn block_words(s: Seq<u8>) -> Seq<u32> {
    Seq::new(16, |i: int| le_word(s, 4 * i))
}

/// The four little-endian bytes of a word.
pub open spec fn word_bytes(w: u32) -> Seq<u8> {
    seq![w as u8, (w >> 8u32) as u8, (w >> 16u32) as u8, (w >> 24u32) as u8]
}

/// The little-endian byte encoding of a sequence of words.
pub open spec fn words_bytes(ws: Seq<u32>) -> Seq<u8>
    decreases ws.len(),
{
    if ws.len() == 0 {
        Seq::empty()
    } else {
        words_bytes(ws.drop_last()) + word_bytes(ws.last())
    }
}

/// Salsa20/8 on a 64-byte block: four double rounds on the words of the block,
/// each result word added (mod 2^32) to the input word, written back little-endian.
pub open spec fn salsa20_8(block: Seq<u8>) -> Seq<u8> {
    let x = block_words(block);
    let y = double_rounds(x, 4);
    words_bytes(Seq::new(16, |i: int| x[i].wrapping_add(y[i])))
}

pub proof fn lemma_words_bytes_len(ws: Seq<u32>)
    ensures
        words_bytes(ws).len() == 4 * ws.len(),
    decreases ws.len(),
{
    if ws.len() > 0 {
        lemma_words_bytes_len(ws.drop_last());
    }
}

fn rotate(v: u32, k: u32) -> (r: u32)
    requires
        0 < k < 32,
    ensures
        r == rotl(v, k),
{
    (v << k) | (v >> (32 - k))
}

fn arx_step(x: &mut Vec<u32>, t: usize, a: usize, b: usize, k: u32)
    requires
        old(x)@.len() == 16,
        t < 16,
        a < 16,
        b < 16,
        0 < k < 32,
    ensures
        final(x)@ == arx(old(x)@, t as int, a as int, b as int, k),
{
    let v = x[t] ^ rotate(x[a].wrapping_add(x[b]), k);
    x.set(t, v);
}

fn quarter(x: &mut Vec<u32>, a: usize, b: usize, c: usize, d: usize)
    requires
        old(x)@.len() == 16,
        a < 16,
        b < 16,
        c < 16,
        d < 16,
    ensures
        final(x)@ == quarter_round(old(x)@, a as int, b as int, c as int, d as int),
{
    arx_step(x, b, a, d, 7);
    arx_step(x, c, b, a, 9);
    arx_step(x, d, c, b, 13);
    arx_step(x, a, d, c, 18);
}

fn double(x: &mut Vec<u32>)
    requires
        old(x)@.len() == 16,
    ensures
        final(x)@ == double_round(old(x)@),
{
    quarter(x, 0, 4, 8, 12);
    quarter(x, 5, 9, 13, 1);
    quarter(x, 10, 14, 2, 6);
    quarter(x, 15, 3, 7, 11);
    quarter(x, 0, 1, 2, 3);
    quarter(x, 5, 6, 7, 4);
    quarter(x, 10, 11, 8, 9);
    quarter(x, 15, 12, 13, 14);
}

fn read_word(s: &[u8], off: usize) -> (r: u32)
    requires
        off + 4 <= s@.len(),
    ensures
        r == le_word(s@, off as int),
{
    (s[off] as u32) | ((s[off + 1] as u32) << 8u32) | ((s[off + 2] as u32) << 16u32) | ((s[off
        + 3] as u32) << 24u32)
}

/// The Salsa20/8 core applied to a 64-byte block.
pub fn salsa20_8_core(input: &[u8]) -> (out: Vec<u8>)
    requires
        input@.len() == 64,
    ensures
        out@ == salsa20_8(input@),
        out@.len() == 64,
{
    let mut x: Vec<u32> = Vec::new();
    let mut i: usize = 0;
    while i < 16
        invariant
            input@.len() == 64,
            i <= 16,
            x@ == block_words(input@).subrange(0, i as int),
        decreases 16 - i,
    {
        let w = read_word(input, 4 * i);
        x.push(w);
        i = i + 1;
        assert(x@ =~= block_words(input@).subrange(0, i as int));
    }
    assert(x@ =~= block_words(input@));
    let ghost x0 = x@;
    let mut y = x.clone();
    let mut k: usize = 0;
    while k < 4
        invariant
            k <= 4,
            y@.len() == 16,
            y@ == double_rounds(x0, k as nat),
        decreases 4 - k,
    {
        double(&mut y);
        k = k + 1;
    }
    let ghost z = Seq::new(16, |j: int| x0[j].wrapping_add(y@[j]));
    let mut out: Vec<u8> = Vec::new();
    let mut j: usize = 0;
    while j < 16
        invariant
            j <= 16,
            x@ == x0,
            x0.len() == 16,
            y@.len() == 16,
            z == Seq::new(16, |m: int| x0[m].wrapping_add(y@[m])),
            out@ == words_bytes(z.subrange(0, j as int)),
        decreases 16 - j,
    {
        let w = x[j].wrapping_add(y[j]);
        out.push(w as u8);
        out.push((w >> 8u32) as u8);
        out.push((w >> 16u32) as u8);
        out.push((w >> 24u32) as u8);
        assert(z.subrange(0, j + 1).drop_last() =~= z.subrange(0, j as int));
        j = j + 1;
        assert(out@ =~= words_bytes(z.subrange(0, j as int)));
    }
    assert(z.subrange(0, 16) =~= z);
    proof {
        lemma_words_bytes_len(z);
    }
    out
}

} // verus!
