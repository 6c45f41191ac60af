//! Big-endian integers inside byte sequences.
use vstd::prelude::*;

verus! {

pub open spec fn be_u16(s: Seq<u8>, i: int) -> int {
    s[i] as int * 0x100 + s[i + 1] as int
}

pub open spec fn be_u24(s: Seq<u8>, i: int) -> int {
    s[i] as int * 0x10000 + s[i + 1] as int * 0x100 + s[i + 2] as int
}

pub open spec fn be_u32(s: Seq<u8>, i: int) -> int {
    s[i] as int * 0x1000000 + s[i + 1] as int * 0x10000 + s[i + 2] as int * 0x100 + s[i + 3] as int
}

/// Two's complement reading of `be_u16`.
pub open spec fn be_i16(s: Seq<u8>, i: int) -> int {
    if be_u16(s, i) >= 0x8000 {
        be_u16(s, i) - 0x10000
    } else {
        be_u16(s, i)
    }
}

/// Two's complement reading of `be_u32`.
pub open spec fn be_i32(s: Seq<u8>, i: int) -> int {
    if be_u32(s, i) >= 0x8000_0000 {
        be_u32(s, i) - 0x1_0000_0000
    } else {
        be_u32(s, i)
    }
}

/// The two bytes of `x`, most significant first.
pub open spec fn u16_bytes(x: int) -> Seq<u8> {
    seq![(x / 0x100 % 0x100) as u8, (x % 0x100) as u8]
}

/// The four bytes of `x`, most significant first.
pub open spec fn u32_bytes(x: int) -> Seq<u8> {
    seq![
        (x / 0x1000000 % 0x100) as u8,
        (x / 0x10000 % 0x100) as u8,
        (x / 0x100 % 0x100) as u8,
        (x % 0x100) as u8,
    ]
}

pub fn read_u16(s: &[u8], i: usize) -> (r: u16)
    requires
        i + 2 <= s@.len(),
    ensures
        r == be_u16(s@, i as int),
{
    s[i] as u16 * 0x100 + s[i + 1] as u16
}

pub fn read_u24(s: &[u8], i: usize) -> (r: u32)
    requires
        i + 3 <= s@.len(),
    ensures
        r == be_u24(s@, i as int),
        r < 0x1000000,
{
    s[i] as u32 * 0x10000 + s[i + 1] as u32 * 0x100 + s[i + 2] as u32
}

pub fn read_u32(s: &[u8], i: usize) -> (r: u32)
    requires
        i + 4 <= s@.len(),
    ensures
        r == be_u32(s@, i as int),
{
    s[i] as u32 * 0x1000000 + s[i + 1] as u32 * 0x10000 + s[i + 2] as u32 * 0x100 + s[i + 3] as u32
}

pub fn read_i16(s: &[u8], i: usize) -> (r: i16)
    requires
        i + 2 <= s@.len(),
    ensures
        r == be_i16(s@, i as int),
{
    let v = read_u16(s, i);
    if v >= 0x8000 {
        (v as i32 - 0x10000) as i16
    } else {
        v as i16
    }
}

pub fn read_i32(s: &[u8], i: usize) -> (r: i32)
    requires
        i + 4 <= s@.len(),
    ensures
        r == be_i32(s@, i as int),
{
    let v = read_u32(s, i);
    if v >= 0x8000_0000 {
        (v as i64 - 0x1_0000_0000) as i32
    } else {
        v as i32
    }
}

pub fn push_u16(v: &mut Vec<u8>, x: u16)
    ensures
        final(v)@ == old(v)@ + u16_bytes(x as int),
{
    v.push((x / 0x100) as u8);
    v.push((x % 0x100) as u8);
    assert(final(v)@ =~= old(v)@ + u16_bytes(x as int));
}

pub fn push_u32(v: &mut Vec<u8>, x: u32)
    ensures
        final(v)@ == old(v)@ + u32_bytes(x as int),
{
    v.push((x / 0x1000000) as u8);
    v.push((x / 0x10000 % 0x100) as u8);
    v.push((x / 0x100 % 0x100) as u8);
    v.push((x % 0x100) as u8);
    assert(final(v)@ =~= old(v)@ + u32_bytes(x as int));
}

/// Appends `s[start..end]` to `out`.
pub fn push_range(out: &mut Vec<u8>, s: &[u8], start: usize, end: usize)
    requires
        start <= end <= s@.len(),
    ensures
        final(out)@ == old(out)@ + s@.subrange(start as int, end as int),
{
    let mut i = start;
    while i < end
        invariant
            start <= i <= end <= s@.len(),
            out@ == old(out)@ + s@.subrange(start as int, i as int),
        decreases end - i,
    {
        out.push(s[i]);
        assert(s@.subrange(start as int, i + 1) =~= s@.subrange(start as int, i as int).push(s@[i as int]));
        i += 1;
    }
}

/// `be_u16` undoes `u16_bytes`.
pub proof fn lemma_u16_round_trip(x: int)
    requires
        0 <= x < 0x10000,
    ensures
        be_u16(u16_bytes(x), 0) == x,
{
}

/// `be_u32` undoes `u32_bytes`.
pub proof fn lemma_u32_round_trip(x: int)
    requires
        0 <= x < 0x1_0000_0000,
    ensures
        be_u32(u32_bytes(x), 0) == x,
{
}

/// `u32_bytes` undoes `be_u32`.
pub proof fn lemma_be_u32_bytes(s: Seq<u8>, i: int)
    requires
        0 <= i,
        i + 4 <= s.len(),
    ensures
        u32_bytes(be_u32(s, i)) == s.subrange(i, i + 4),
{
    let b0 = s[i] as int;
    let b1 = s[i + 1] as int;
    let b2 = s[i + 2] as int;
    let b3 = s[i + 3] as int;
    let x = be_u32(s, i);
    assert(x / 0x1000000 % 0x100 == b0 && x / 0x10000 % 0x100 == b1 && x / 0x100 % 0x100 == b2 && x % 0x100 == b3)
        by (nonlinear_arith)
        requires
            x == b0 * 0x1000000 + b1 * 0x10000 + b2 * 0x100 + b3,
            0 <= b0 < 0x100,
            0 <= b1 < 0x100,
            0 <= b2 < 0x100,
            0 <= b3 < 0x100,
    ;
    assert(u32_bytes(x) =~= s.subrange(i, i + 4));
}

/// Writes the four bytes of `x` over `v[pos..pos + 4]`.
pub fn write_u32(v: &mut Vec<u8>, pos: usize, x: u32)
    requires
        pos + 4 <= old(v)@.len(),
    ensures
        final(v)@.len() == old(v)@.len(),
        forall|j: int|
            0 <= j < old(v)@.len() ==> #[trigger] final(v)@[j] == if pos <= j < pos + 4 {
                u32_bytes(x as int)[j - pos]
            } else {
                old(v)@[j]
            },
{
    let n = v.len();
    v.set(pos, (x / 0x1000000) as u8);
    v.set(pos + 1, (x / 0x10000 % 0x100) as u8);
    v.set(pos + 2, (x / 0x100 % 0x100) as u8);
    v.set(pos + 3, (x % 0x100) as u8);
    let ghost b = u32_bytes(x as int);
    assert(b[0] == (x / 0x1000000) as u8 && b[1] == (x / 0x10000 % 0x100) as u8);
    assert(b[2] == (x / 0x100 % 0x100) as u8 && b[3] == (x % 0x100) as u8);
}

/// `n` zero bytes.
pub fn zeros(n: usize) -> (r: Vec<u8>)
    ensures
        r@ == Seq::new(n as nat, |k: int| 0u8),
{
    let mut r: Vec<u8> = Vec::new();
    let mut i: usize = 0;
    while i < n
        invariant
            i <= n,
            r@ == Seq::new(i as nat, |k: int| 0u8),
        decreases n - i,
    {
        r.push(0);
        i += 1;
        assert(r@ =~= Seq::new(i as nat, |k: int| 0u8));
    }
    r
}

} // verus!
