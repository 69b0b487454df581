//! Big-endian integer encodings used by every wire and storage format.
use vstd::prelude::*;

verus! {

/// Two-byte big-endian encoding.
pub open spec fn be2(v: u16) -> Seq<u8> {
    seq![(v >> 8) as u8, v as u8]
}

/// Four-byte big-endian encoding.
pub open spec fn be4(v: u32) -> Seq<u8> {
    seq![(v >> 24) as u8, (v >> 16) as u8, (v >> 8) as u8, v as u8]
}

/// Eight-byte big-endian encoding.
pub open spec fn be8(v: u64) -> Seq<u8> {
    seq![
        (v >> 56) as u8, (v >> 48) as u8, (v >> 40) as u8, (v >> 32) as u8,
        (v >> 24) as u8, (v >> 16) as u8, (v >> 8) as u8, v as u8,
    ]
}

/// The integer that two big-endian bytes at `at` denote.
pub open spec fn get_be2(b: Seq<u8>, at: int) -> u16 {
    (((b[at] as u16) << 8u16) | (b[at + 1] as u16)) as u16
}

/// The integer that four big-endian bytes at `at` denote.
pub open spec fn get_be4(b: Seq<u8>, at: int) -> u32 {
    (((b[at] as u32) << 24u32) | ((b[at + 1] as u32) << 16u32) | ((b[at + 2] as u32) << 8u32)
        | (b[at + 3] as u32)) as u32
}

/// The integer that eight big-endian bytes at `at` denote.
pub open spec fn get_be8(b: Seq<u8>, at: int) -> u64 {
    (((get_be4(b, at) as u64) << 32u64) | (get_be4(b, at + 4) as u64)) as u64
}

pub proof fn lemma_be2_roundtrip(v: u16)
    ensures
        get_be2(be2(v), 0) == v,
{
    let b0 = (v >> 8) as u8;
    let b1 = v as u8;
    assert((((b0 as u16) << 8u16) | (b1 as u16)) == v) by (bit_vector)
        requires
            b0 == (v >> 8) as u8,
            b1 == v as u8,
    ;
}

pub proof fn lemma_be4_roundtrip(v: u32)
    ensures
        get_be4(be4(v), 0) == v,
{
    let b0 = (v >> 24) as u8;
    let b1 = (v >> 16) as u8;
    let b2 = (v >> 8) as u8;
    let b3 = v as u8;
    assert((((b0 as u32) << 24u32) | ((b1 as u32) << 16u32) | ((b2 as u32) << 8u32) | (b3 as u32))
        == v) by (bit_vector)
        requires
            b0 == (v >> 24) as u8,
            b1 == (v >> 16) as u8,
            b2 == (v >> 8) as u8,
            b3 == v as u8,
    ;
}

pub proof fn lemma_be8_roundtrip(v: u64)
    ensures
        get_be8(be8(v), 0) == v,
{
    let s = be8(v);
    let hi = (v >> 32) as u32;
    let lo = v as u32;
    assert(s.subrange(0, 4) =~= be4(hi)) by {
        assert((v >> 56) as u8 == (hi >> 24) as u8) by (bit_vector)
            requires hi == (v >> 32) as u32;
        assert((v >> 48) as u8 == (hi >> 16) as u8) by (bit_vector)
            requires hi == (v >> 32) as u32;
        assert((v >> 40) as u8 == (hi >> 8) as u8) by (bit_vector)
            requires hi == (v >> 32) as u32;
        assert((v >> 32) as u8 == hi as u8) by (bit_vector)
            requires hi == (v >> 32) as u32;
    }
    assert(s.subrange(4, 8) =~= be4(lo)) by {
        assert((v >> 24) as u8 == (lo >> 24) as u8) by (bit_vector)
            requires lo == v as u32;
        assert((v >> 16) as u8 == (lo >> 16) as u8) by (bit_vector)
            requires lo == v as u32;
        assert((v >> 8) as u8 == (lo >> 8) as u8) by (bit_vector)
            requires lo == v as u32;
        assert(v as u8 == lo as u8) by (bit_vector)
            requires lo == v as u32;
    }
    lemma_be4_roundtrip(hi);
    lemma_be4_roundtrip(lo);
    assert(get_be4(s, 0) == get_be4(s.subrange(0, 4), 0));
    assert(get_be4(s, 4) == get_be4(s.subrange(4, 8), 0));
    assert((((hi as u64) << 32u64) | (lo as u64)) == v) by (bit_vector)
        requires
            hi == (v >> 32) as u32,
            lo == v as u32,
    ;
}

/// Decoding two bytes and encoding the result gives the same bytes back.
pub proof fn lemma_be2_bytes(b: Seq<u8>, at: int)
    requires
        0 <= at,
        at + 2 <= b.len(),
    ensures
        be2(get_be2(b, at)) =~= b.subrange(at, at + 2),
{
    let b0 = b[at];
    let b1 = b[at + 1];
    let v = get_be2(b, at);
    assert((v >> 8) as u8 == b0 && v as u8 == b1) by (bit_vector)
        requires
            v == (((b0 as u16) << 8u16) | (b1 as u16)) as u16,
    ;
}

/// Decoding four bytes and encoding the result gives the same bytes back.
pub proof fn lemma_be4_bytes(b: Seq<u8>, at: int)
    requires
        0 <= at,
        at + 4 <= b.len(),
    ensures
        be4(get_be4(b, at)) =~= b.subrange(at, at + 4),
{
    let b0 = b[at];
    let b1 = b[at + 1];
    let b2 = b[at + 2];
    let b3 = b[at + 3];
    let v = get_be4(b, at);
    assert((v >> 24) as u8 == b0 && (v >> 16) as u8 == b1 && (v >> 8) as u8 == b2 && v as u8 == b3)
        by (bit_vector)
        requires
            v == (((b0 as u32) << 24u32) | ((b1 as u32) << 16u32) | ((b2 as u32) << 8u32) | (
            b3 as u32)) as u32,
    ;
}

/// Decoding eight bytes and encoding the result gives the same bytes back.
pub proof fn lemma_be8_bytes(b: Seq<u8>, at: int)
    requires
        0 <= at,
        at + 8 <= b.len(),
    ensures
        be8(get_be8(b, at)) =~= b.subrange(at, at + 8),
{
    lemma_be4_bytes(b, at);
    lemma_be4_bytes(b, at + 4);
    let hi = get_be4(b, at);
    let lo = get_be4(b, at + 4);
    let v = get_be8(b, at);
    assert((v >> 56) as u8 == (hi >> 24) as u8 && (v >> 48) as u8 == (hi >> 16) as u8 && (v >> 40) as u8
        == (hi >> 8) as u8 && (v >> 32) as u8 == hi as u8 && (v >> 24) as u8 == (lo >> 24) as u8 && (v
        >> 16) as u8 == (lo >> 16) as u8 && (v >> 8) as u8 == (lo >> 8) as u8 && v as u8 == lo as u8)
        by (bit_vector)
        requires
            v == (((hi as u64) << 32u64) | (lo as u64)) as u64,
    ;
}

/// Reads a big-endian `u16` from two bytes.
pub fn read_be2(b0: u8, b1: u8) -> (r: u16)
    ensures
        r == get_be2(seq![b0, b1], 0),
{
    ((b0 as u16) << 8) | (b1 as u16)
}

/// Reads a big-endian `u32` from four bytes.
pub fn read_be4(b0: u8, b1: u8, b2: u8, b3: u8) -> (r: u32)
    ensures
        r == get_be4(seq![b0, b1, b2, b3], 0),
{
    ((b0 as u32) << 24) | ((b1 as u32) << 16) | ((b2 as u32) << 8) | (b3 as u32)
}

} // verus!

verus! {

/// `s` with the bytes from `at` on replaced by `data`.
pub open spec fn splice(s: Seq<u8>, at: int, data: Seq<u8>) -> Seq<u8> {
    s.take(at) + data + s.skip(at + data.len())
}

/// Reads a big-endian `u16` at `at`.
pub fn load_be2(b: &[u8], at: usize) -> (r: u16)
    requires
        at + 2 <= b@.len(),
    ensures
        r == get_be2(b@, at as int),
{
    ((b[at] as u16) << 8) | (b[at + 1] as u16)
}

/// Reads a big-endian `u32` at `at`.
pub fn load_be4(b: &[u8], at: usize) -> (r: u32)
    requires
        at + 4 <= b@.len(),
    ensures
        r == get_be4(b@, at as int),
{
    ((b[at] as u32) << 24) | ((b[at + 1] as u32) << 16) | ((b[at + 2] as u32) << 8) | (b[at
        + 3] as u32)
}

/// Reads a big-endian `u64` at `at`.
pub fn load_be8(b: &[u8], at: usize) -> (r: u64)
    requires
        at + 8 <= b@.len(),
    ensures
        r == get_be8(b@, at as int),
{
    let n = b.len();
    assert(at + 4 < n);
    let hi = load_be4(b, at);
    let lo = load_be4(b, at + 4);
    ((hi as u64) << 32) | (lo as u64)
}

/// Writes `v` big-endian at `at`.
pub fn store_be2<const N: usize>(buf: &mut [u8; N], at: usize, v: u16)
    requires
        at + 2 <= N,
    ensures
        final(buf)@ =~= splice(old(buf)@, at as int, be2(v)),
{
    buf[at] = (v >> 8) as u8;
    buf[at + 1] = v as u8;
}

/// Writes `v` big-endian at `at`.
pub fn store_be4<const N: usize>(buf: &mut [u8; N], at: usize, v: u32)
    requires
        at + 4 <= N,
    ensures
        final(buf)@ =~= splice(old(buf)@, at as int, be4(v)),
{
    buf[at] = (v >> 24) as u8;
    buf[at + 1] = (v >> 16) as u8;
    buf[at + 2] = (v >> 8) as u8;
    buf[at + 3] = v as u8;
}

/// Writes `v` big-endian at `at`.
pub fn store_be8<const N: usize>(buf: &mut [u8; N], at: usize, v: u64)
    requires
        at + 8 <= N,
    ensures
        final(buf)@ =~= splice(old(buf)@, at as int, be8(v)),
{
    buf[at] = (v >> 56) as u8;
    buf[at + 1] = (v >> 48) as u8;
    buf[at + 2] = (v >> 40) as u8;
    buf[at + 3] = (v >> 32) as u8;
    buf[at + 4] = (v >> 24) as u8;
    buf[at + 5] = (v >> 16) as u8;
    buf[at + 6] = (v >> 8) as u8;
    buf[at + 7] = v as u8;
}

/// Copies `src` into `buf` at `at`.
pub fn store_bytes<const N: usize>(buf: &mut [u8; N], at: usize, src: &[u8])
    requires
        at + src@.len() <= N,
    ensures
        final(buf)@ =~= splice(old(buf)@, at as int, src@),
{
    let mut i: usize = 0;
    while i < src.len()
        invariant
            i <= src@.len(),
            at + src@.len() <= N,
            buf@.len() == N,
            forall|k: int| 0 <= k < at ==> buf@[k] == old(buf)@[k],
            forall|k: int| at <= k < at + i ==> buf@[k] == src@[k - at],
            forall|k: int| at + i <= k < N ==> buf@[k] == old(buf)@[k],
        decreases src@.len() - i,
    {
        buf[at + i] = src[i];
        i = i + 1;
    }
}

} // verus!

verus! {

/// Fills `dst` with the `N` bytes of `src` starting at `at`.
pub fn copy_into<const N: usize>(dst: &mut [u8; N], src: &[u8], at: usize)
    requires
        at + N <= src@.len(),
    ensures
        final(dst)@ =~= src@.subrange(at as int, at + N),
{
    let n = src.len();
    let mut i: usize = 0;
    while i < N
        invariant
            n == src@.len(),
            i <= N,
            at + N <= src@.len(),
            dst@.len() == N,
            forall|k: int| 0 <= k < i ==> dst@[k] == src@[at + k],
        decreases N - i,
    {
        dst[i] = src[at + i];
        i = i + 1;
    }
}

} // verus!

verus! {

/// Sets every byte of `buf` to zero.
pub fn fill_zero<const N: usize>(buf: &mut [u8; N])
    ensures
        final(buf)@ =~= Seq::new(N as nat, |i: int| 0u8),
{
    let mut i: usize = 0;
    while i < N
        invariant
            i <= N,
            buf@.len() == N,
            forall|k: int| 0 <= k < i ==> buf@[k] == 0u8,
        decreases N - i,
    {
        buf[i] = 0;
        i = i + 1;
    }
}

} // verus!

verus! {

/// Appends all of `src` to `v`.
pub fn push_all(v: &mut Vec<u8>, src: &[u8])
    ensures
        final(v)@ == old(v)@ + src@,
{
    let n = src.len();
    let mut i: usize = 0;
    while i < n
        invariant
            n == src@.len(),
            i <= n,
            v@ == old(v)@ + src@.subrange(0, i as int),
        decreases n - i,
    {
        v.push(src[i]);
        i = i + 1;
        assert(v@ =~= old(v)@ + src@.subrange(0, i as int));
    }
    assert(src@.subrange(0, n as int) =~= src@);
}

/// Appends `x` big-endian.
pub fn push_be4(v: &mut Vec<u8>, x: u32)
    ensures
        final(v)@ == old(v)@ + be4(x),
{
    v.push((x >> 24) as u8);
    v.push((x >> 16) as u8);
    v.push((x >> 8) as u8);
    v.push(x as u8);
    assert(v@ =~= old(v)@ + be4(x));
}

/// Appends `x` big-endian.
pub fn push_be8(v: &mut Vec<u8>, x: u64)
    ensures
        final(v)@ == old(v)@ + be8(x),
{
    v.push((x >> 56) as u8);
    v.push((x >> 48) as u8);
    v.push((x >> 40) as u8);
    v.push((x >> 32) as u8);
    v.push((x >> 24) as u8);
    v.push((x >> 16) as u8);
    v.push((x >> 8) as u8);
    v.push(x as u8);
    assert(v@ =~= old(v)@ + be8(x));
}

} // verus!
