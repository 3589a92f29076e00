//! Fixed-width big-endian integer encodings and byte-vector helpers.
//!
//! Every multi-byte integer that enters a hash preimage or the block codec
//! goes through these functions, so the layout is explicit and
//! platform-independent.

use vstd::prelude::*;

verus! {

/// Big-endian bytes of a `u32`.
pub open spec fn spec_u32_be(x: u32) -> Seq<u8> {
    seq![(x >> 24) as u8, (x >> 16) as u8, (x >> 8) as u8, x as u8]
}

/// Big-endian bytes of a `u64`.
pub open spec fn spec_u64_be(x: u64) -> Seq<u8> {
    seq![
        (x >> 56) as u8,
        (x >> 48) as u8,
        (x >> 40) as u8,
        (x >> 32) as u8,
        (x >> 24) as u8,
        (x >> 16) as u8,
        (x >> 8) as u8,
        x as u8,
    ]
}

/// Big-endian bytes of a `u128`.
pub open spec fn spec_u128_be(x: u128) -> Seq<u8> {
    seq![
        (x >> 120) as u8,
        (x >> 112) as u8,
        (x >> 104) as u8,
        (x >> 96) as u8,
        (x >> 88) as u8,
        (x >> 80) as u8,
        (x >> 72) as u8,
        (x >> 64) as u8,
        (x >> 56) as u8,
        (x >> 48) as u8,
        (x >> 40) as u8,
        (x >> 32) as u8,
        (x >> 24) as u8,
        (x >> 16) as u8,
        (x >> 8) as u8,
        x as u8,
    ]
}

/// Big-endian bytes of an `i64`, written as its two's-complement `u64` image.
pub open spec fn spec_i64_be(x: i64) -> Seq<u8> {
    spec_u64_be(x as u64)
}

/// The `u32` read back from four big-endian bytes at `pos`.
pub open spec fn spec_read_u32(s: Seq<u8>, pos: int) -> u32 {
    (((s[pos] as u32) << 24) | ((s[pos + 1] as u32) << 16) | ((s[pos + 2] as u32) << 8) | (s[pos
        + 3] as u32)) as u32
}

/// The `u64` read back from eight big-endian bytes at `pos`.
pub open spec fn spec_read_u64(s: Seq<u8>, pos: int) -> u64 {
    (((s[pos] as u64) << 56) | ((s[pos + 1] as u64) << 48) | ((s[pos + 2] as u64) << 40) | ((s[pos
        + 3] as u64) << 32) | ((s[pos + 4] as u64) << 24) | ((s[pos + 5] as u64) << 16) | ((s[pos
        + 6] as u64) << 8) | (s[pos + 7] as u64)) as u64
}

/// The `u128` read back from sixteen big-endian bytes at `pos`.
pub open spec fn spec_read_u128(s: Seq<u8>, pos: int) -> u128 {
    (((s[pos] as u128) << 120) | ((s[pos + 1] as u128) << 112) | ((s[pos + 2] as u128) << 104) | ((
    s[pos + 3] as u128) << 96) | ((s[pos + 4] as u128) << 88) | ((s[pos + 5] as u128) << 80) | ((
    s[pos + 6] as u128) << 72) | ((s[pos + 7] as u128) << 64) | ((s[pos + 8] as u128) << 56) | ((
    s[pos + 9] as u128) << 48) | ((s[pos + 10] as u128) << 40) | ((s[pos + 11] as u128) << 32) | ((
    s[pos + 12] as u128) << 24) | ((s[pos + 13] as u128) << 16) | ((s[pos + 14] as u128) << 8) | (
    s[pos + 15] as u128)) as u128
}

/// Reading four big-endian bytes of `x` yields `x` again.
pub proof fn lemma_u32_be_read(s: Seq<u8>, pos: int, x: u32)
    requires
        0 <= pos,
        pos + 4 <= s.len(),
        s.subrange(pos, pos + 4) == spec_u32_be(x),
    ensures
        spec_read_u32(s, pos) == x,
{
    assert(s[pos] == (x >> 24) as u8 && s[pos + 1] == (x >> 16) as u8 && s[pos + 2] == (x
        >> 8) as u8 && s[pos + 3] == x as u8) by {
        assert(s.subrange(pos, pos + 4)[0] == s[pos]);
        assert(s.subrange(pos, pos + 4)[1] == s[pos + 1]);
        assert(s.subrange(pos, pos + 4)[2] == s[pos + 2]);
        assert(s.subrange(pos, pos + 4)[3] == s[pos + 3]);
    }
    assert((((((x >> 24) as u8) as u32) << 24) | ((((x >> 16) as u8) as u32) << 16) | ((((x
        >> 8) as u8) as u32) << 8) | ((x as u8) as u32)) as u32 == x) by (bit_vector);
}

/// Reading eight big-endian bytes of `x` yields `x` again.
pub proof fn lemma_u64_be_read(s: Seq<u8>, pos: int, x: u64)
    requires
        0 <= pos,
        pos + 8 <= s.len(),
        s.subrange(pos, pos + 8) == spec_u64_be(x),
    ensures
        spec_read_u64(s, pos) == x,
{
    assert(s[pos] == (x >> 56) as u8 && s[pos + 1] == (x >> 48) as u8 && s[pos + 2] == (x
        >> 40) as u8 && s[pos + 3] == (x >> 32) as u8 && s[pos + 4] == (x >> 24) as u8 && s[pos
        + 5] == (x >> 16) as u8 && s[pos + 6] == (x >> 8) as u8 && s[pos + 7] == x as u8) by {
        assert forall|i: int| 0 <= i < 8 implies s[pos + i] == #[trigger] s.subrange(
            pos,
            pos + 8,
        )[i] by {}
    }
    assert((((((x >> 56) as u8) as u64) << 56) | ((((x >> 48) as u8) as u64) << 48) | ((((x
        >> 40) as u8) as u64) << 40) | ((((x >> 32) as u8) as u64) << 32) | ((((x
        >> 24) as u8) as u64) << 24) | ((((x >> 16) as u8) as u64) << 16) | ((((x
        >> 8) as u8) as u64) << 8) | ((x as u8) as u64)) as u64 == x) by (bit_vector);
}

/// Reading sixteen big-endian bytes of `x` yields `x` again.
pub proof fn lemma_u128_be_read(s: Seq<u8>, pos: int, x: u128)
    requires
        0 <= pos,
        pos + 16 <= s.len(),
        s.subrange(pos, pos + 16) == spec_u128_be(x),
    ensures
        spec_read_u128(s, pos) == x,
{
    assert(s[pos] == (x >> 120) as u8 && s[pos + 1] == (x >> 112) as u8 && s[pos + 2] == (x
        >> 104) as u8 && s[pos + 3] == (x >> 96) as u8 && s[pos + 4] == (x >> 88) as u8 && s[pos
        + 5] == (x >> 80) as u8 && s[pos + 6] == (x >> 72) as u8 && s[pos + 7] == (x
        >> 64) as u8 && s[pos + 8] == (x >> 56) as u8 && s[pos + 9] == (x >> 48) as u8 && s[pos
        + 10] == (x >> 40) as u8 && s[pos + 11] == (x >> 32) as u8 && s[pos + 12] == (x
        >> 24) as u8 && s[pos + 13] == (x >> 16) as u8 && s[pos + 14] == (x >> 8) as u8 && s[pos
        + 15] == x as u8) by {
        assert forall|i: int| 0 <= i < 16 implies s[pos + i] == #[trigger] s.subrange(
            pos,
            pos + 16,
        )[i] by {}
    }
    assert((((((x >> 120) as u8) as u128) << 120) | ((((x >> 112) as u8) as u128) << 112) | ((((x
        >> 104) as u8) as u128) << 104) | ((((x >> 96) as u8) as u128) << 96) | ((((x
        >> 88) as u8) as u128) << 88) | ((((x >> 80) as u8) as u128) << 80) | ((((x
        >> 72) as u8) as u128) << 72) | ((((x >> 64) as u8) as u128) << 64) | ((((x
        >> 56) as u8) as u128) << 56) | ((((x >> 48) as u8) as u128) << 48) | ((((x
        >> 40) as u8) as u128) << 40) | ((((x >> 32) as u8) as u128) << 32) | ((((x
        >> 24) as u8) as u128) << 24) | ((((x >> 16) as u8) as u128) << 16) | ((((x
        >> 8) as u8) as u128) << 8) | ((x as u8) as u128)) as u128 == x) by (bit_vector);
}

/// Casting an `i64` to `u64` and back is the identity.
pub proof fn lemma_i64_u64_round_trip(x: i64)
    ensures
        (x as u64) as i64 == x,
{
    assert((x as u64) as i64 == x) by (bit_vector);
}

/// Appends the four big-endian bytes of `x`.
pub fn put_u32(out: &mut Vec<u8>, x: u32)
    ensures
        final(out)@ == old(out)@ + spec_u32_be(x),
{
    out.push((x >> 24) as u8);
    out.push((x >> 16) as u8);
    out.push((x >> 8) as u8);
    out.push(x as u8);
    assert(out@ =~= old(out)@ + spec_u32_be(x));
}

/// Appends the eight big-endian bytes of `x`.
pub fn put_u64(out: &mut Vec<u8>, x: u64)
    ensures
        final(out)@ == old(out)@ + spec_u64_be(x),
{
    out.push((x >> 56) as u8);
    out.push((x >> 48) as u8);
    out.push((x >> 40) as u8);
    out.push((x >> 32) as u8);
    out.push((x >> 24) as u8);
    out.push((x >> 16) as u8);
    out.push((x >> 8) as u8);
    out.push(x as u8);
    assert(out@ =~= old(out)@ + spec_u64_be(x));
}

/// Appends the sixteen big-endian bytes of `x`.
pub fn put_u128(out: &mut Vec<u8>, x: u128)
    ensures
        final(out)@ == old(out)@ + spec_u128_be(x),
{
    out.push((x >> 120) as u8);
    out.push((x >> 112) as u8);
    out.push((x >> 104) as u8);
    out.push((x >> 96) as u8);
    out.push((x >> 88) as u8);
    out.push((x >> 80) as u8);
    out.push((x >> 72) as u8);
    out.push((x >> 64) as u8);
    out.push((x >> 56) as u8);
    out.push((x >> 48) as u8);
    out.push((x >> 40) as u8);
    out.push((x >> 32) as u8);
    out.push((x >> 24) as u8);
    out.push((x >> 16) as u8);
    out.push((x >> 8) as u8);
    out.push(x as u8);
    assert(out@ =~= old(out)@ + spec_u128_be(x));
}

/// Appends the eight big-endian bytes of the two's-complement image of `x`.
pub fn put_i64(out: &mut Vec<u8>, x: i64)
    ensures
        final(out)@ == old(out)@ + spec_i64_be(x),
{
    put_u64(out, x as u64);
}

/// Appends every byte of `b`.
pub fn put_bytes(out: &mut Vec<u8>, b: &Vec<u8>)
    ensures
        final(out)@ == old(out)@ + b@,
{
    let n = b.len();
    let mut i: usize = 0;
    while i < n
        invariant
            n == b@.len(),
            i <= n,
            out@ == old(out)@ + b@.take(i as int),
        decreases n - i,
    {
        out.push(b[i]);
        assert(out@ =~= old(out)@ + b@.take(i + 1));
        i = i + 1;
    }
    assert(b@.take(n as int) =~= b@);
}

/// Reads the `u32` stored big-endian at `pos`.
pub fn get_u32(b: &Vec<u8>, pos: usize) -> (r: u32)
    requires
        pos + 4 <= b@.len(),
    ensures
        r == spec_read_u32(b@, pos as int),
{
    // binding the length brings its usize bound into scope
    let n: usize = b.len();
    ((b[pos] as u32) << 24) | ((b[pos + 1] as u32) << 16) | ((b[pos + 2] as u32) << 8) | (b[pos
        + 3] as u32)
}

/// Reads the `u64` stored big-endian at `pos`.
pub fn get_u64(b: &Vec<u8>, pos: usize) -> (r: u64)
    requires
        pos + 8 <= b@.len(),
    ensures
        r == spec_read_u64(b@, pos as int),
{
    let n: usize = b.len();
    ((b[pos] as u64) << 56) | ((b[pos + 1] as u64) << 48) | ((b[pos + 2] as u64) << 40) | ((b[pos
        + 3] as u64) << 32) | ((b[pos + 4] as u64) << 24) | ((b[pos + 5] as u64) << 16) | ((b[pos
        + 6] as u64) << 8) | (b[pos + 7] as u64)
}

/// Reads the `u128` stored big-endian at `pos`.
pub fn get_u128(b: &Vec<u8>, pos: usize) -> (r: u128)
    requires
        pos + 16 <= b@.len(),
    ensures
        r == spec_read_u128(b@, pos as int),
{
    let n: usize = b.len();
    ((b[pos] as u128) << 120) | ((b[pos + 1] as u128) << 112) | ((b[pos + 2] as u128) << 104) | ((
    b[pos + 3] as u128) << 96) | ((b[pos + 4] as u128) << 88) | ((b[pos + 5] as u128) << 80) | ((
    b[pos + 6] as u128) << 72) | ((b[pos + 7] as u128) << 64) | ((b[pos + 8] as u128) << 56) | ((
    b[pos + 9] as u128) << 48) | ((b[pos + 10] as u128) << 40) | ((b[pos + 11] as u128) << 32) | ((
    b[pos + 12] as u128) << 24) | ((b[pos + 13] as u128) << 16) | ((b[pos + 14] as u128) << 8) | (
    b[pos + 15] as u128)
}

/// Copies the `count` bytes starting at `pos` into a fresh vector.
pub fn get_slice(b: &Vec<u8>, pos: usize, count: usize) -> (r: Vec<u8>)
    requires
        pos + count <= b@.len(),
    ensures
        r@ == b@.subrange(pos as int, pos as int + count as int),
{
    let n: usize = b.len();
    let mut r: Vec<u8> = Vec::new();
    let mut i: usize = 0;
    while i < count
        invariant
            pos + count <= b@.len(),
            b@.len() <= usize::MAX,
            i <= count,
            r@ == b@.subrange(pos as int, pos as int + i as int),
        decreases count - i,
    {
        r.push(b[pos + i]);
        assert(r@ =~= b@.subrange(pos as int, pos as int + (i + 1) as int));
        i = i + 1;
    }
    r
}

/// True exactly when the two byte vectors hold the same bytes.
pub fn bytes_eq(a: &Vec<u8>, b: &Vec<u8>) -> (r: bool)
    ensures
        r == (a@ == b@),
{
    if a.len() != b.len() {
        assert(a@ != b@);
        return false;
    }
    let n = a.len();
    let mut i: usize = 0;
    while i < n
        invariant
            n == a@.len() == b@.len(),
            i <= n,
            forall|j: int| 0 <= j < i ==> a@[j] == b@[j],
        decreases n - i,
    {
        if a[i] != b[i] {
            assert(a@ != b@);
            return false;
        }
        i = i + 1;
    }
    assert(a@ =~= b@);
    true
}

/// Copies a byte vector.
pub fn clone_bytes(b: &Vec<u8>) -> (r: Vec<u8>)
    ensures
        r@ == b@,
{
    get_slice(b, 0, b.len())
}

} // verus!
