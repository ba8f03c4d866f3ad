//! Octet strings: comparison, copying, and fixed-width integers in both
//! byte orders.

use vstd::prelude::*;

verus! {

/// Whether two octet strings are the same.
pub fn slice_eq(a: &[u8], b: &[u8]) -> (r: bool)
    ensures
        r == (a@ == b@),
{
    if a.len() != b.len() {
        return false;
    }
    let mut i: usize = 0;
    while i < a.len()
        invariant
            a.len() == b.len(),
            i <= a.len(),
            forall|k: int| 0 <= k < i ==> a@[k] == b@[k],
        decreases a.len() - i,
    {
        if a[i] != b[i] {
            return false;
        }
        i = i + 1;
    }
    proof {
        assert(a@ =~= b@);
    }
    true
}

/// Appends `b` to `out`.
pub fn append(out: &mut Vec<u8>, b: &[u8])
    ensures
        final(out)@ == old(out)@ + b@,
{
    let ghost before = out@;
    let mut i: usize = 0;
    while i < b.len()
        invariant
            i <= b.len(),
            out@ == before + b@.take(i as int),
        decreases b.len() - i,
    {
        proof {
            assert(b@.take(i + 1) =~= b@.take(i as int).push(b@[i as int]));
        }
        out.push(b[i]);
        i = i + 1;
    }
    proof {
        assert(b@.take(b@.len() as int) =~= b@);
    }
}

/// A copy of `b`.
pub fn copy(b: &[u8]) -> (r: Vec<u8>)
    ensures
        r@ == b@,
{
    let mut out: Vec<u8> = Vec::new();
    append(&mut out, b);
    out
}

/// A copy of octets `i..j` of `b`.
pub fn copy_range(b: &[u8], i: usize, j: usize) -> (r: Vec<u8>)
    requires
        i <= j <= b.len(),
    ensures
        r@ == b@.subrange(i as int, j as int),
{
    let mut out: Vec<u8> = Vec::new();
    let mut k: usize = i;
    while k < j
        invariant
            i <= k <= j <= b.len(),
            out@ == b@.subrange(i as int, k as int),
        decreases j - k,
    {
        proof {
            assert(b@.subrange(i as int, k + 1) =~= b@.subrange(i as int, k as int).push(
                b@[k as int],
            ));
        }
        out.push(b[k]);
        k = k + 1;
    }
    out
}

/// `n` zero octets.
pub fn zeros(n: usize) -> (r: Vec<u8>)
    ensures
        r@ == Seq::new(n as nat, |i: int| 0u8),
{
    let mut out: Vec<u8> = Vec::new();
    let mut i: usize = 0;
    while i < n
        invariant
            i <= n,
            out@ == Seq::new(i as nat, |i: int| 0u8),
        decreases n - i,
    {
        out.push(0u8);
        i = i + 1;
        proof {
            assert(out@ =~= Seq::new(i as nat, |i: int| 0u8));
        }
    }
    out
}

/// Big-endian octets of a 16-bit number.
pub open spec fn be16(v: u16) -> Seq<u8> {
    seq![(v / 0x100) as u8, (v % 0x100) as u8]
}

/// Big-endian octets of a 32-bit number.
pub open spec fn be32(v: u32) -> Seq<u8> {
    seq![
        (v / 0x100_0000) as u8,
        (v / 0x1_0000 % 0x100) as u8,
        (v / 0x100 % 0x100) as u8,
        (v % 0x100) as u8,
    ]
}

/// Big-endian octets of a 64-bit number: the high half, then the low half.
pub open spec fn be64(v: u64) -> Seq<u8> {
    be32((v / 0x1_0000_0000) as u32) + be32((v % 0x1_0000_0000) as u32)
}

/// Little-endian octets of a 16-bit number.
pub open spec fn le16(v: u16) -> Seq<u8> {
    seq![(v % 0x100) as u8, (v / 0x100) as u8]
}

/// Little-endian octets of a 32-bit number.
pub open spec fn le32(v: u32) -> Seq<u8> {
    seq![
        (v % 0x100) as u8,
        (v / 0x100 % 0x100) as u8,
        (v / 0x1_0000 % 0x100) as u8,
        (v / 0x100_0000) as u8,
    ]
}

/// The number whose big-endian octets stand at `i`.
pub open spec fn from_be16(s: Seq<u8>, i: int) -> u16 {
    (s[i] * 0x100 + s[i + 1]) as u16
}

/// The number whose big-endian octets stand at `i`.
pub open spec fn from_be32(s: Seq<u8>, i: int) -> u32 {
    (s[i] * 0x100_0000 + s[i + 1] * 0x1_0000 + s[i + 2] * 0x100 + s[i + 3]) as u32
}

/// The number whose big-endian octets stand at `i`.
pub open spec fn from_be64(s: Seq<u8>, i: int) -> u64 {
    (from_be32(s, i) * 0x1_0000_0000 + from_be32(s, i + 4)) as u64
}

/// The number whose little-endian octets stand at `i`.
pub open spec fn from_le16(s: Seq<u8>, i: int) -> u16 {
    (s[i] + s[i + 1] * 0x100) as u16
}

/// The number whose little-endian octets stand at `i`.
pub open spec fn from_le32(s: Seq<u8>, i: int) -> u32 {
    (s[i] + s[i + 1] * 0x100 + s[i + 2] * 0x1_0000 + s[i + 3] * 0x100_0000) as u32
}

/// Reading a 16-bit number gives back the number written.
pub proof fn lemma_be16_round_trip(v: u16)
    ensures
        from_be16(be16(v), 0) == v,
{
}

/// Reading a 32-bit number gives back the number written.
pub proof fn lemma_be32_round_trip(v: u32)
    ensures
        from_be32(be32(v), 0) == v,
{
    lemma_octets_of(v as int);
}

/// A number is made of its four octets.
proof fn lemma_octets_of(v: int)
    requires
        0 <= v < 0x1_0000_0000,
    ensures
        0 <= v / 0x100_0000 < 0x100,
        v == v / 0x100_0000 * 0x100_0000 + v / 0x1_0000 % 0x100 * 0x1_0000 + v / 0x100 % 0x100
            * 0x100 + v % 0x100,
{
    let a = v / 0x100;
    let b = v / 0x1_0000;
    assert(v == a * 0x100 + v % 0x100);
    assert(b == a / 0x100);
    assert(a == b * 0x100 + a % 0x100);
    assert(v / 0x100_0000 == b / 0x100);
    assert(b == b / 0x100 * 0x100 + b % 0x100);
}

/// Reading a 64-bit number gives back the number written.
pub proof fn lemma_be64_round_trip(v: u64)
    ensures
        from_be64(be64(v), 0) == v,
{
    let hi = (v / 0x1_0000_0000) as u32;
    let lo = (v % 0x1_0000_0000) as u32;
    lemma_be32_round_trip(hi);
    lemma_be32_round_trip(lo);
    let s = be64(v);
    assert(from_be32(s, 0) == from_be32(be32(hi), 0));
    assert(from_be32(s, 4) == from_be32(be32(lo), 0));
}

/// Reading a 32-bit number gives back the number written.
pub proof fn lemma_le32_round_trip(v: u32)
    ensures
        from_le32(le32(v), 0) == v,
{
    lemma_octets_of(v as int);
}

/// Appends `v` in big-endian order.
pub fn put_be16(out: &mut Vec<u8>, v: u16)
    ensures
        final(out)@ == old(out)@ + be16(v),
{
    out.push((v / 0x100) as u8);
    out.push((v % 0x100) as u8);
    proof {
        assert(out@ =~= old(out)@ + be16(v));
    }
}

/// Appends `v` in big-endian order.
pub fn put_be32(out: &mut Vec<u8>, v: u32)
    ensures
        final(out)@ == old(out)@ + be32(v),
{
    out.push((v / 0x100_0000) as u8);
    out.push((v / 0x1_0000 % 0x100) as u8);
    out.push((v / 0x100 % 0x100) as u8);
    out.push((v % 0x100) as u8);
    proof {
        assert(out@ =~= old(out)@ + be32(v));
    }
}

/// Appends `v` in big-endian order.
pub fn put_be64(out: &mut Vec<u8>, v: u64)
    ensures
        final(out)@ == old(out)@ + be64(v),
{
    put_be32(out, (v / 0x1_0000_0000) as u32);
    put_be32(out, (v % 0x1_0000_0000) as u32);
    proof {
        assert(out@ =~= old(out)@ + be64(v));
    }
}

/// Appends `v` in little-endian order.
pub fn put_le16(out: &mut Vec<u8>, v: u16)
    ensures
        final(out)@ == old(out)@ + le16(v),
{
    out.push((v % 0x100) as u8);
    out.push((v / 0x100) as u8);
    proof {
        assert(out@ =~= old(out)@ + le16(v));
    }
}

/// Appends `v` in little-endian order.
pub fn put_le32(out: &mut Vec<u8>, v: u32)
    ensures
        final(out)@ == old(out)@ + le32(v),
{
    out.push((v % 0x100) as u8);
    out.push((v / 0x100 % 0x100) as u8);
    out.push((v / 0x1_0000 % 0x100) as u8);
    out.push((v / 0x100_0000) as u8);
    proof {
        assert(out@ =~= old(out)@ + le32(v));
    }
}

/// Reads the big-endian number at `i`.
pub fn get_be16(b: &[u8], i: usize) -> (r: u16)
    requires
        i + 2 <= b.len(),
    ensures
        r == from_be16(b@, i as int),
{
    b[i] as u16 * 0x100 + b[i + 1] as u16
}

/// Reads the big-endian number at `i`.
pub fn get_be32(b: &[u8], i: usize) -> (r: u32)
    requires
        i + 4 <= b.len(),
    ensures
        r == from_be32(b@, i as int),
{
    b[i] as u32 * 0x100_0000 + b[i + 1] as u32 * 0x1_0000 + b[i + 2] as u32 * 0x100 + b[i
        + 3] as u32
}

/// Reads the big-endian number at `i`.
pub fn get_be64(b: &[u8], i: usize) -> (r: u64)
    requires
        i + 8 <= b.len(),
    ensures
        r == from_be64(b@, i as int),
{
    get_be32(b, i) as u64 * 0x1_0000_0000 + get_be32(b, i + 4) as u64
}

/// Reads the little-endian number at `i`.
pub fn get_le16(b: &[u8], i: usize) -> (r: u16)
    requires
        i + 2 <= b.len(),
    ensures
        r == from_le16(b@, i as int),
{
    b[i] as u16 + b[i + 1] as u16 * 0x100
}

/// Reads the little-endian number at `i`.
pub fn get_le32(b: &[u8], i: usize) -> (r: u32)
    requires
        i + 4 <= b.len(),
    ensures
        r == from_le32(b@, i as int),
{
    b[i] as u32 + b[i + 1] as u32 * 0x100 + b[i + 2] as u32 * 0x1_0000 + b[i + 3] as u32
        * 0x100_0000
}

} // verus!
