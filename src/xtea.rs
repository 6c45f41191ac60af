//! The XTEA block cipher: 32 rounds over 64-bit big-endian blocks with a
//! 128-bit key held as four words.
use vstd::prelude::*;
use vstd::wrapping::u32_specs::{wrapping_add, wrapping_sub};
use crate::be::{be_u32, u32_bytes, read_u32, write_u32, lemma_u32_round_trip, lemma_be_u32_bytes};

verus! {

/// The key schedule constant.
pub const GOLDEN_RATIO: u32 = 0x9E37_79B9;
/// Rounds per block.
pub const ROUNDS: u32 = 32;

/// The round mixing function.
pub open spec fn mix(v: u32) -> u32 {
    wrapping_add((v << 4u32) ^ (v >> 5u32), v)
}

pub open spec fn key_word(key: Seq<i32>, i: u32) -> u32 {
    key[i as int] as u32
}

/// A state of the cipher: the two halves of a block and the running sum.
pub type XteaState = (u32, u32, u32);

pub open spec fn enc_round(st: XteaState, key: Seq<i32>) -> XteaState {
    let v0 = wrapping_add(st.0, mix(st.1) ^ wrapping_add(st.2, key_word(key, st.2 & 3)));
    let sum = wrapping_add(st.2, GOLDEN_RATIO);
    let v1 = wrapping_add(st.1, mix(v0) ^ wrapping_add(sum, key_word(key, (sum >> 11u32) & 3)));
    (v0, v1, sum)
}

pub open spec fn dec_round(st: XteaState, key: Seq<i32>) -> XteaState {
    let v1 = wrapping_sub(st.1, mix(st.0) ^ wrapping_add(st.2, key_word(key, (st.2 >> 11u32) & 3)));
    let sum = wrapping_sub(st.2, GOLDEN_RATIO);
    let v0 = wrapping_sub(st.0, mix(v1) ^ wrapping_add(sum, key_word(key, sum & 3)));
    (v0, v1, sum)
}

/// The state after `n` enciphering rounds.
pub open spec fn enc_iter(st: XteaState, key: Seq<i32>, n: nat) -> XteaState
    decreases n,
{
    if n == 0 {
        st
    } else {
        enc_round(enc_iter(st, key, (n - 1) as nat), key)
    }
}

/// The state after `n` deciphering rounds.
pub open spec fn dec_iter(st: XteaState, key: Seq<i32>, n: nat) -> XteaState
    decreases n,
{
    if n == 0 {
        st
    } else {
        dec_round(dec_iter(st, key, (n - 1) as nat), key)
    }
}

/// The running sum after `n` enciphering rounds from zero.
pub open spec fn sum_after(n: nat) -> u32
    decreases n,
{
    if n == 0 {
        0
    } else {
        wrapping_add(sum_after((n - 1) as nat), GOLDEN_RATIO)
    }
}

pub open spec fn encipher_block(v0: u32, v1: u32, key: Seq<i32>) -> (u32, u32) {
    let st = enc_iter((v0, v1, 0), key, 32);
    (st.0, st.1)
}

pub open spec fn decipher_block(v0: u32, v1: u32, key: Seq<i32>) -> (u32, u32) {
    let st = dec_iter((v0, v1, sum_after(32)), key, 32);
    (st.0, st.1)
}

/// Byte `k` (0 to 7) of a block whose halves are `v`.
pub open spec fn block_byte(v: (u32, u32), k: int) -> u8 {
    if k < 4 {
        u32_bytes(v.0 as int)[k]
    } else {
        u32_bytes(v.1 as int)[k - 4]
    }
}

/// `s` with each of the first `blocks` 8-byte blocks at `offset` replaced
/// by its image under `f` (enciphering if `enc`, else deciphering).
pub open spec fn map_blocks(s: Seq<u8>, offset: int, blocks: nat, key: Seq<i32>, enc: bool) -> Seq<u8> {
    Seq::new(
        s.len(),
        |i: int|
            if offset <= i < offset + 8 * blocks {
                let base = offset + (i - offset) / 8 * 8;
                let w0 = be_u32(s, base) as u32;
                let w1 = be_u32(s, base + 4) as u32;
                block_byte(
                    if enc { encipher_block(w0, w1, key) } else { decipher_block(w0, w1, key) },
                    i - base,
                )
            } else {
                s[i]
            },
    )
}

pub open spec fn decipher_range(s: Seq<u8>, offset: int, blocks: nat, key: Seq<i32>) -> Seq<u8> {
    map_blocks(s, offset, blocks, key, false)
}

pub open spec fn encipher_range(s: Seq<u8>, offset: int, blocks: nat, key: Seq<i32>) -> Seq<u8> {
    map_blocks(s, offset, blocks, key, true)
}

proof fn lemma_add_sub(a: u32, x: u32)
    ensures
        wrapping_sub(wrapping_add(a, x), x) == a,
{
}

proof fn lemma_round_inverse(st: XteaState, key: Seq<i32>)
    ensures
        dec_round(enc_round(st, key), key) == st,
{
    let e = enc_round(st, key);
    let sum = wrapping_add(st.2, GOLDEN_RATIO);
    lemma_add_sub(st.1, mix(e.0) ^ wrapping_add(sum, key_word(key, (sum >> 11u32) & 3)));
    lemma_add_sub(st.2, GOLDEN_RATIO);
    lemma_add_sub(st.0, mix(st.1) ^ wrapping_add(st.2, key_word(key, st.2 & 3)));
}

proof fn lemma_dec_iter_shift(st: XteaState, key: Seq<i32>, m: nat)
    ensures
        dec_iter(st, key, m + 1) == dec_iter(dec_round(st, key), key, m),
    decreases m,
{
    assert(dec_iter(st, key, m + 1) == dec_round(dec_iter(st, key, m), key));
    if m > 0 {
        lemma_dec_iter_shift(st, key, (m - 1) as nat);
        assert(dec_iter(dec_round(st, key), key, m) == dec_round(dec_iter(dec_round(st, key), key, (m - 1) as nat), key));
    } else {
        assert(dec_iter(st, key, 0) == st);
    }
}

proof fn lemma_iter_inverse(st: XteaState, key: Seq<i32>, n: nat)
    ensures
        dec_iter(enc_iter(st, key, n), key, n) == st,
    decreases n,
{
    if n > 0 {
        let prev = enc_iter(st, key, (n - 1) as nat);
        lemma_dec_iter_shift(enc_iter(st, key, n), key, (n - 1) as nat);
        lemma_round_inverse(prev, key);
        lemma_iter_inverse(st, key, (n - 1) as nat);
    }
}

proof fn lemma_enc_sum(st: XteaState, key: Seq<i32>, n: nat)
    requires
        st.2 == 0,
    ensures
        enc_iter(st, key, n).2 == sum_after(n),
    decreases n,
{
    if n > 0 {
        lemma_enc_sum(st, key, (n - 1) as nat);
    }
}

/// Deciphering undoes enciphering, block by block.
pub proof fn lemma_block_inverse(v0: u32, v1: u32, key: Seq<i32>)
    ensures
        ({
            let e = encipher_block(v0, v1, key);
            decipher_block(e.0, e.1, key) == (v0, v1)
        }),
{
    lemma_enc_sum((v0, v1, 0), key, 32);
    lemma_iter_inverse((v0, v1, 0), key, 32);
}

proof fn lemma_initial_sum()
    ensures
        sum_after(32) == 0xC6EF_3720,
{
    reveal_with_fuel(sum_after, 33);
}

fn key_at(key: &[i32; 4], sel: u32) -> (r: u32)
    requires
        sel < 4,
    ensures
        r == key_word(key@, sel),
{
    key[sel as usize] as u32
}

fn mix_exec(v: u32) -> (r: u32)
    ensures
        r == mix(v),
{
    ((v << 4u32) ^ (v >> 5u32)).wrapping_add(v)
}

/// Deciphers one block given as its two big-endian halves.
pub fn decipher_words(w0: u32, w1: u32, key: &[i32; 4]) -> (r: (u32, u32))
    ensures
        r == decipher_block(w0, w1, key@),
{
    let mut sum = GOLDEN_RATIO.wrapping_mul(ROUNDS);
    proof {
        lemma_initial_sum();
    }
    let mut v0 = w0;
    let mut v1 = w1;
    let mut r: u32 = 0;
    while r < ROUNDS
        invariant
            r <= 32,
            (v0, v1, sum) == dec_iter((w0, w1, sum_after(32)), key@, r as nat),
        decreases 32 - r,
    {
        assert((sum >> 11u32) & 3 < 4) by (bit_vector);
        v1 = v1.wrapping_sub(mix_exec(v0) ^ sum.wrapping_add(key_at(key, (sum >> 11u32) & 3)));
        sum = sum.wrapping_sub(GOLDEN_RATIO);
        assert(sum & 3 < 4) by (bit_vector);
        v0 = v0.wrapping_sub(mix_exec(v1) ^ sum.wrapping_add(key_at(key, sum & 3)));
        r += 1;
    }
    (v0, v1)
}

/// Enciphers one block given as its two big-endian halves.
pub fn encipher_words(w0: u32, w1: u32, key: &[i32; 4]) -> (r: (u32, u32))
    ensures
        r == encipher_block(w0, w1, key@),
{
    let mut sum: u32 = 0;
    let mut v0 = w0;
    let mut v1 = w1;
    let mut r: u32 = 0;
    while r < ROUNDS
        invariant
            r <= 32,
            (v0, v1, sum) == enc_iter((w0, w1, 0), key@, r as nat),
        decreases 32 - r,
    {
        assert(sum & 3 < 4) by (bit_vector);
        v0 = v0.wrapping_add(mix_exec(v1) ^ sum.wrapping_add(key_at(key, sum & 3)));
        sum = sum.wrapping_add(GOLDEN_RATIO);
        assert((sum >> 11u32) & 3 < 4) by (bit_vector);
        v1 = v1.wrapping_add(mix_exec(v0) ^ sum.wrapping_add(key_at(key, (sum >> 11u32) & 3)));
        r += 1;
    }
    (v0, v1)
}

proof fn lemma_block_of(offset: int, b: int, k: int)
    requires
        0 <= b,
        0 <= k < 8,
    ensures
        (8 * b + k) / 8 == b,
        offset + (offset + 8 * b + k - offset) / 8 * 8 == offset + 8 * b,
{
    assert((8 * b + k) / 8 == b) by (nonlinear_arith)
        requires
            0 <= b,
            0 <= k < 8,
    ;
}

/// Applies the cipher in place to the `blocks` 8-byte blocks at `offset`.
fn apply_blocks(buf: &mut Vec<u8>, offset: usize, blocks: usize, key: &[i32; 4], enc: bool)
    requires
        offset + 8 * blocks <= old(buf)@.len(),
    ensures
        final(buf)@ == map_blocks(old(buf)@, offset as int, blocks as nat, key@, enc),
{
    let ghost orig = buf@;
    let n = buf.len();
    let mut i: usize = 0;
    while i < blocks
        invariant
            offset + 8 * blocks <= orig.len(),
            n == orig.len(),
            i <= blocks,
            buf@ == map_blocks(orig, offset as int, i as nat, key@, enc),
        decreases blocks - i,
    {
        let base = offset + 8 * i;
        let ghost before = buf@;
        assert(before.subrange(base as int, base + 8) =~= orig.subrange(base as int, base + 8));
        let w0 = read_u32(buf.as_slice(), base);
        let w1 = read_u32(buf.as_slice(), base + 4);
        assert(w0 == be_u32(orig, base as int));
        assert(w1 == be_u32(orig, base + 4));
        let v = if enc {
            encipher_words(w0, w1, key)
        } else {
            decipher_words(w0, w1, key)
        };
        write_u32(buf, base, v.0);
        write_u32(buf, base + 4, v.1);
        assert forall|j: int| 0 <= j < orig.len() implies #[trigger] buf@[j] == map_blocks(orig, offset as int, (i + 1) as nat, key@, enc)[j] by {
            if base <= j < base + 8 {
                lemma_block_of(offset as int, i as int, j - base);
            }
        }
        assert(buf@ =~= map_blocks(orig, offset as int, (i + 1) as nat, key@, enc));
        i += 1;
    }
}

/// Deciphers, in place, the whole blocks of `buf[offset..length]`; trailing
/// bytes short of a block stay as they are.
pub fn decipher_xtea(buf: &mut Vec<u8>, offset: usize, length: usize, key: &[i32; 4])
    requires
        offset <= length <= old(buf)@.len(),
    ensures
        final(buf)@ == decipher_range(old(buf)@, offset as int, ((length - offset) / 8) as nat, key@),
{
    apply_blocks(buf, offset, (length - offset) / 8, key, false);
}

/// Enciphers, in place, the whole blocks of `buf[offset..length]`.
pub fn encipher_xtea(buf: &mut Vec<u8>, offset: usize, length: usize, key: &[i32; 4])
    requires
        offset <= length <= old(buf)@.len(),
    ensures
        final(buf)@ == encipher_range(old(buf)@, offset as int, ((length - offset) / 8) as nat, key@),
{
    apply_blocks(buf, offset, (length - offset) / 8, key, true);
}

proof fn lemma_block_at(s: Seq<u8>, offset: int, blocks: nat, key: Seq<i32>, enc: bool, b: int, m: int)
    requires
        0 <= offset,
        0 <= b < blocks,
        0 <= m < 8,
        offset + 8 * blocks <= s.len(),
    ensures
        ({
            let w0 = be_u32(s, offset + 8 * b) as u32;
            let w1 = be_u32(s, offset + 8 * b + 4) as u32;
            map_blocks(s, offset, blocks, key, enc)[offset + 8 * b + m] == block_byte(
                if enc { encipher_block(w0, w1, key) } else { decipher_block(w0, w1, key) },
                m,
            )
        }),
{
    lemma_block_of(offset, b, m);
}

proof fn lemma_split_index(offset: int, j: int)
    requires
        offset <= j,
    ensures
        0 <= j - offset - 8 * ((j - offset) / 8) < 8,
        0 <= (j - offset) / 8,
{
    assert(0 <= j - offset - 8 * ((j - offset) / 8) < 8 && 0 <= (j - offset) / 8) by (nonlinear_arith)
        requires
            offset <= j,
    ;
}

#[verifier::rlimit(50)]
proof fn lemma_inverse_at(s: Seq<u8>, offset: int, blocks: nat, key: Seq<i32>, j: int)
    requires
        0 <= offset,
        offset + 8 * blocks <= s.len(),
        offset <= j < offset + 8 * blocks,
    ensures
        decipher_range(encipher_range(s, offset, blocks, key), offset, blocks, key)[j] == s[j],
{
    let e = encipher_range(s, offset, blocks, key);
    lemma_split_index(offset, j);
    let b = (j - offset) / 8;
    let m = j - offset - 8 * b;
    assert(b < blocks) by (nonlinear_arith)
        requires
            b == (j - offset) / 8,
            j < offset + 8 * blocks,
            offset <= j,
    ;
    let base = offset + 8 * b;
    let w0 = be_u32(s, base) as u32;
    let w1 = be_u32(s, base + 4) as u32;
    let en = encipher_block(w0, w1, key);
    lemma_block_at(s, offset, blocks, key, true, b, 0);
    lemma_block_at(s, offset, blocks, key, true, b, 1);
    lemma_block_at(s, offset, blocks, key, true, b, 2);
    lemma_block_at(s, offset, blocks, key, true, b, 3);
    lemma_block_at(s, offset, blocks, key, true, b, 4);
    lemma_block_at(s, offset, blocks, key, true, b, 5);
    lemma_block_at(s, offset, blocks, key, true, b, 6);
    lemma_block_at(s, offset, blocks, key, true, b, 7);
    assert(e.subrange(base, base + 4) =~= u32_bytes(en.0 as int));
    assert(e.subrange(base + 4, base + 8) =~= u32_bytes(en.1 as int));
    lemma_u32_round_trip(en.0 as int);
    lemma_u32_round_trip(en.1 as int);
    assert(be_u32(e, base) == be_u32(u32_bytes(en.0 as int), 0));
    assert(be_u32(e, base + 4) == be_u32(u32_bytes(en.1 as int), 0));
    lemma_block_inverse(w0, w1, key);
    lemma_block_at(e, offset, blocks, key, false, b, m);
    lemma_be_u32_bytes(s, base);
    lemma_be_u32_bytes(s, base + 4);
}

/// Deciphering a range undoes enciphering it, for every key.
pub proof fn lemma_xtea_inverse(s: Seq<u8>, offset: int, blocks: nat, key: Seq<i32>)
    requires
        0 <= offset,
        offset + 8 * blocks <= s.len(),
    ensures
        decipher_range(encipher_range(s, offset, blocks, key), offset, blocks, key) == s,
{
    let d = decipher_range(encipher_range(s, offset, blocks, key), offset, blocks, key);
    assert forall|j: int| 0 <= j < s.len() implies #[trigger] d[j] == s[j] by {
        if offset <= j < offset + 8 * blocks {
            lemma_inverse_at(s, offset, blocks, key, j);
        }
    }
    assert(d =~= s);
}

} // verus!
