//! Big-endian integer encodings and byte-prefix extraction shared by every
//! wire format of the crate.

use vstd::prelude::*;

verus! {

/// Big-endian encoding of a `u16`.
pub open spec fn be_u16(x: u16) -> Seq<u8> {
    seq![(x >> 8u16) as u8, x as u8]
}

/// Big-endian encoding of a `u32`.
pub open spec fn be_u32(x: u32) -> Seq<u8> {
    seq![(x >> 24u32) as u8, (x >> 16u32) as u8, (x >> 8u32) as u8, x as u8]
}

/// Big-endian encoding of a `u64`.
pub open spec fn be_u64(x: u64) -> Seq<u8> {
    seq![
        (x >> 56u64) as u8, (x >> 48u64) as u8, (x >> 40u64) as u8, (x >> 32u64) as u8,
        (x >> 24u64) as u8, (x >> 16u64) as u8, (x >> 8u64) as u8, x as u8,
    ]
}

/// Big-endian encoding of a `u128`.
pub open spec fn be_u128(x: u128) -> Seq<u8> {
    seq![
        (x >> 120u128) as u8, (x >> 112u128) as u8, (x >> 104u128) as u8, (x >> 96u128) as u8,
        (x >> 88u128) as u8, (x >> 80u128) as u8, (x >> 72u128) as u8, (x >> 64u128) as u8,
        (x >> 56u128) as u8, (x >> 48u128) as u8, (x >> 40u128) as u8, (x >> 32u128) as u8,
        (x >> 24u128) as u8, (x >> 16u128) as u8, (x >> 8u128) as u8, x as u8,
    ]
}

/// The `u16` whose big-endian encoding is the first two bytes of `s`.
pub open spec fn u16_of_be(s: Seq<u8>) -> u16 {
    ((s[0] as u16) << 8u16) | (s[1] as u16)
}

/// The `u32` whose big-endian encoding is the first four bytes of `s`.
pub open spec fn u32_of_be(s: Seq<u8>) -> u32 {
    ((s[0] as u32) << 24u32) | ((s[1] as u32) << 16u32) | ((s[2] as u32) << 8u32) | (s[3] as u32)
}

/// The `u64` whose big-endian encoding is the first eight bytes of `s`.
pub open spec fn u64_of_be(s: Seq<u8>) -> u64 {
    ((s[0] as u64) << 56u64) | ((s[1] as u64) << 48u64) | ((s[2] as u64) << 40u64) | ((s[3] as u64) << 32u64)
        | ((s[4] as u64) << 24u64) | ((s[5] as u64) << 16u64) | ((s[6] as u64) << 8u64) | (s[7] as u64)
}

/// The `u128` whose big-endian encoding is the first sixteen bytes of `s`.
pub open spec fn u128_of_be(s: Seq<u8>) -> u128 {
    ((s[0] as u128) << 120u128) | ((s[1] as u128) << 112u128) | ((s[2] as u128) << 104u128)
        | ((s[3] as u128) << 96u128) | ((s[4] as u128) << 88u128) | ((s[5] as u128) << 80u128)
        | ((s[6] as u128) << 72u128) | ((s[7] as u128) << 64u128) | ((s[8] as u128) << 56u128)
        | ((s[9] as u128) << 48u128) | ((s[10] as u128) << 40u128) | ((s[11] as u128) << 32u128)
        | ((s[12] as u128) << 24u128) | ((s[13] as u128) << 16u128) | ((s[14] as u128) << 8u128)
        | (s[15] as u128)
}

/// Decoding a big-endian `u16` encoding gives back the number.
pub proof fn lemma_u16_be_roundtrip(x: u16)
    ensures
        u16_of_be(be_u16(x)) == x,
{
    assert((((((x >> 8u16) as u8) as u16) << 8u16) | ((x as u8) as u16)) == x) by (bit_vector);
}

/// Decoding a big-endian `u32` encoding gives back the number.
pub proof fn lemma_u32_be_roundtrip(x: u32)
    ensures
        u32_of_be(be_u32(x)) == x,
{
    assert((((((x >> 24u32) as u8) as u32) << 24u32) | ((((x >> 16u32) as u8) as u32) << 16u32)
        | ((((x >> 8u32) as u8) as u32) << 8u32) | ((x as u8) as u32)) == x) by (bit_vector);
}

/// Decoding a big-endian `u64` encoding gives back the number.
pub proof fn lemma_u64_be_roundtrip(x: u64)
    ensures
        u64_of_be(be_u64(x)) == x,
{
    assert((((((x >> 56u64) as u8) as u64) << 56u64) | ((((x >> 48u64) as u8) as u64) << 48u64)
        | ((((x >> 40u64) as u8) as u64) << 40u64) | ((((x >> 32u64) as u8) as u64) << 32u64)
        | ((((x >> 24u64) as u8) as u64) << 24u64) | ((((x >> 16u64) as u8) as u64) << 16u64)
        | ((((x >> 8u64) as u8) as u64) << 8u64) | ((x as u8) as u64)) == x) by (bit_vector);
}

/// Decoding a big-endian `u128` encoding gives back the number.
pub proof fn lemma_u128_be_roundtrip(x: u128)
    ensures
        u128_of_be(be_u128(x)) == x,
{
    assert((((((x >> 120u128) as u8) as u128) << 120u128) | ((((x >> 112u128) as u8) as u128) << 112u128)
        | ((((x >> 104u128) as u8) as u128) << 104u128) | ((((x >> 96u128) as u8) as u128) << 96u128)
        | ((((x >> 88u128) as u8) as u128) << 88u128) | ((((x >> 80u128) as u8) as u128) << 80u128)
        | ((((x >> 72u128) as u8) as u128) << 72u128) | ((((x >> 64u128) as u8) as u128) << 64u128)
        | ((((x >> 56u128) as u8) as u128) << 56u128) | ((((x >> 48u128) as u8) as u128) << 48u128)
        | ((((x >> 40u128) as u8) as u128) << 40u128) | ((((x >> 32u128) as u8) as u128) << 32u128)
        | ((((x >> 24u128) as u8) as u128) << 24u128) | ((((x >> 16u128) as u8) as u128) << 16u128)
        | ((((x >> 8u128) as u8) as u128) << 8u128) | ((x as u8) as u128)) == x) by (bit_vector);
}

/// Appends the big-endian encoding of `x` to `out`.
pub fn push_u16(out: &mut Vec<u8>, x: u16)
    ensures
        final(out)@ == old(out)@ + be_u16(x),
{
    out.push((x >> 8u16) as u8);
    out.push(x as u8);
}

/// Appends the big-endian encoding of `x` to `out`.
pub fn push_u32(out: &mut Vec<u8>, x: u32)
    ensures
        final(out)@ == old(out)@ + be_u32(x),
{
    out.push((x >> 24u32) as u8);
    out.push((x >> 16u32) as u8);
    out.push((x >> 8u32) as u8);
    out.push(x as u8);
}

/// Appends the big-endian encoding of `x` to `out`.
pub fn push_u64(out: &mut Vec<u8>, x: u64)
    ensures
        final(out)@ == old(out)@ + be_u64(x),
{
    let ghost start = out@;
    out.push((x >> 56u64) as u8);
    out.push((x >> 48u64) as u8);
    out.push((x >> 40u64) as u8);
    out.push((x >> 32u64) as u8);
    out.push((x >> 24u64) as u8);
    out.push((x >> 16u64) as u8);
    out.push((x >> 8u64) as u8);
    out.push(x as u8);
    assert(out@ =~= start + be_u64(x));
}

/// Appends the big-endian encoding of `x` to `out`.
pub fn push_u128(out: &mut Vec<u8>, x: u128)
    ensures
        final(out)@ == old(out)@ + be_u128(x),
{
    let ghost start = out@;
    out.push((x >> 120u128) as u8);
    out.push((x >> 112u128) as u8);
    out.push((x >> 104u128) as u8);
    out.push((x >> 96u128) as u8);
    out.push((x >> 88u128) as u8);
    out.push((x >> 80u128) as u8);
    out.push((x >> 72u128) as u8);
    out.push((x >> 64u128) as u8);
    out.push((x >> 56u128) as u8);
    out.push((x >> 48u128) as u8);
    out.push((x >> 40u128) as u8);
    out.push((x >> 32u128) as u8);
    out.push((x >> 24u128) as u8);
    out.push((x >> 16u128) as u8);
    out.push((x >> 8u128) as u8);
    out.push(x as u8);
    assert(out@ =~= start + be_u128(x));
}

/// Reads the big-endian `u16` stored at `at` in `s`.
pub fn read_u16(s: &[u8], at: usize) -> (r: u16)
    requires
        at + 2 <= s@.len(),
    ensures
        r == u16_of_be(s@.subrange(at as int, at + 2)),
{
    ((s[at] as u16) << 8u16) | (s[at + 1] as u16)
}

/// Reads the big-endian `u32` stored at `at` in `s`.
pub fn read_u32(s: &[u8], at: usize) -> (r: u32)
    requires
        at + 4 <= s@.len(),
    ensures
        r == u32_of_be(s@.subrange(at as int, at + 4)),
{
    ((s[at] as u32) << 24u32) | ((s[at + 1] as u32) << 16u32) | ((s[at + 2] as u32) << 8u32)
        | (s[at + 3] as u32)
}

/// Reads the big-endian `u64` stored at `at` in `s`.
pub fn read_u64(s: &[u8], at: usize) -> (r: u64)
    requires
        at + 8 <= s@.len(),
    ensures
        r == u64_of_be(s@.subrange(at as int, at + 8)),
{
    ((s[at] as u64) << 56u64) | ((s[at + 1] as u64) << 48u64) | ((s[at + 2] as u64) << 40u64)
        | ((s[at + 3] as u64) << 32u64) | ((s[at + 4] as u64) << 24u64) | ((s[at + 5] as u64) << 16u64)
        | ((s[at + 6] as u64) << 8u64) | (s[at + 7] as u64)
}

/// Reads the big-endian `u128` stored at `at` in `s`.
pub fn read_u128(s: &[u8], at: usize) -> (r: u128)
    requires
        at + 16 <= s@.len(),
    ensures
        r == u128_of_be(s@.subrange(at as int, at + 16)),
{
    ((s[at] as u128) << 120u128) | ((s[at + 1] as u128) << 112u128) | ((s[at + 2] as u128) << 104u128)
        | ((s[at + 3] as u128) << 96u128) | ((s[at + 4] as u128) << 88u128)
        | ((s[at + 5] as u128) << 80u128) | ((s[at + 6] as u128) << 72u128)
        | ((s[at + 7] as u128) << 64u128) | ((s[at + 8] as u128) << 56u128)
        | ((s[at + 9] as u128) << 48u128) | ((s[at + 10] as u128) << 40u128)
        | ((s[at + 11] as u128) << 32u128) | ((s[at + 12] as u128) << 24u128)
        | ((s[at + 13] as u128) << 16u128) | ((s[at + 14] as u128) << 8u128) | (s[at + 15] as u128)
}

/// Copies `s[at .. at + len]` into a fresh vector.
pub fn copy_range(s: &[u8], at: usize, len: usize) -> (r: Vec<u8>)
    requires
        at + len <= s@.len(),
    ensures
        r@ == s@.subrange(at as int, at + len),
{
    let mut r: Vec<u8> = Vec::with_capacity(len);
    let n = s.len();
    let mut i: usize = 0;
    while i < len
        invariant
            n == s@.len(),
            at + len <= n,
            i <= len,
            r@ == s@.subrange(at as int, at + i),
        decreases len - i,
    {
        r.push(s[at + i]);
        i = i + 1;
        assert(r@ =~= s@.subrange(at as int, at + i));
    }
    r
}

/// Copies `s[at ..]` into a fresh vector.
pub fn copy_tail(s: &[u8], at: usize) -> (r: Vec<u8>)
    requires
        at <= s@.len(),
    ensures
        r@ == s@.subrange(at as int, s@.len() as int),
{
    copy_range(s, at, s.len() - at)
}

/// Appends all of `src` to `out`.
pub fn push_all(out: &mut Vec<u8>, src: &[u8])
    ensures
        final(out)@ == old(out)@ + src@,
{
    let ghost start = out@;
    let mut i: usize = 0;
    while i < src.len()
        invariant
            i <= src@.len(),
            out@ == start + src@.subrange(0, i as int),
        decreases src@.len() - i,
    {
        out.push(src[i]);
        i = i + 1;
        assert(out@ =~= start + src@.subrange(0, i as int));
    }
    assert(src@.subrange(0, src@.len() as int) =~= src@);
}

/// Removes the first `N` bytes of `bytes` and returns them as an array.
/// Fails, leaving `bytes` untouched, when fewer than `N` bytes remain.
pub fn take_bytes<const N: usize>(bytes: &mut Vec<u8>) -> (res: Result<[u8; N], String>)
    ensures
        old(bytes)@.len() < N ==> res is Err && final(bytes)@ == old(bytes)@,
        old(bytes)@.len() >= N ==> (res matches Ok(a) && a@ == old(bytes)@.subrange(0, N as int)
            && final(bytes)@ == old(bytes)@.subrange(N as int, old(bytes)@.len() as int)),
{
    if bytes.len() < N {
        return Err("not enough bytes remaining".to_string());
    }
    let mut arr: [u8; N] = [0u8; N];
    let mut i: usize = 0;
    while i < N
        invariant
            N <= bytes@.len(),
            i <= N,
            arr@.len() == N,
            forall|k: int| 0 <= k < i ==> arr@[k] == bytes@[k],
        decreases N - i,
    {
        arr[i] = bytes[i];
        i = i + 1;
    }
    let rest = bytes.split_off(N);
    let ghost head = bytes@;
    *bytes = rest;
    assert(arr@ =~= head);
    Ok(arr)
}

/// Copies `s[at .. at + N]` into an array.
pub fn copy_array<const N: usize>(s: &[u8], at: usize) -> (r: [u8; N])
    requires
        at + N <= s@.len(),
    ensures
        r@ == s@.subrange(at as int, at + N),
{
    let mut arr: [u8; N] = [0u8; N];
    let n = s.len();
    let mut i: usize = 0;
    while i < N
        invariant
            n == s@.len(),
            at + N <= n,
            i <= N,
            arr@.len() == N,
            forall|k: int| 0 <= k < i ==> arr@[k] == s@[at + k],
        decreases N - i,
    {
        arr[i] = s[at + i];
        i = i + 1;
    }
    assert(arr@ =~= s@.subrange(at as int, at + N));
    arr
}

/// Whether two byte strings are equal.
pub fn same_bytes(a: &[u8], b: &[u8]) -> (r: bool)
    ensures
        r == (a@ == b@),
{
    if a.len() != b.len() {
        return false;
    }
    let mut i: usize = 0;
    while i < a.len()
        invariant
            a@.len() == b@.len(),
            i <= a@.len(),
            forall|k: int| 0 <= k < i ==> a@[k] == b@[k],
        decreases a@.len() - i,
    {
        if a[i] != b[i] {
            return false;
        }
        i = i + 1;
    }
    assert(a@ =~= b@);
    true
}

} // verus!
