//! Little-endian encoding of integers, and of sequences of fixed-size records.

use vstd::prelude::*;

verus! {

/// The value of the four bytes of `b` at `p`, read in little-endian order.
#[verifier::opaque]
pub open spec fn le_u32(b: Seq<u8>, p: int) -> int {
    b[p] as int + 256 * b[p + 1] as int + 65536 * b[p + 2] as int + 16777216 * b[p + 3] as int
}

/// Reading a word inside a byte string shifted by `off` reads the same bytes.
pub proof fn lemma_le_u32_shift(b: Seq<u8>, off: int, p: int)
    requires
        0 <= off,
        0 <= p,
        off + p + 4 <= b.len(),
    ensures
        le_u32(b.subrange(off, b.len() as int), p) == le_u32(b, off + p),
{
    reveal(le_u32);
}

/// Reading a word inside the bytes `b[off..e]` reads the same bytes of `b`.
pub proof fn lemma_le_u32_sub(b: Seq<u8>, off: int, e: int, p: int)
    requires
        0 <= off,
        0 <= p,
        off + p + 4 <= e <= b.len(),
    ensures
        le_u32(b.subrange(off, e), p) == le_u32(b, off + p),
{
    reveal(le_u32);
}

/// The value of the eight bytes of `b` at `p`, read in little-endian order.
pub open spec fn le_u64(b: Seq<u8>, p: int) -> int {
    le_u32(b, p) + 4294967296 * le_u32(b, p + 4)
}

/// The four little-endian bytes of `v`.
#[verifier::opaque]
pub open spec fn u32_le_bytes(v: u32) -> Seq<u8> {
    seq![(v % 256) as u8, ((v / 256) % 256) as u8, ((v / 65536) % 256) as u8, ((v / 16777216) % 256) as u8]
}

/// The encoding of a `u32` has four bytes.
pub broadcast proof fn lemma_u32_le_bytes_len(v: u32)
    ensures
        #[trigger] u32_le_bytes(v).len() == 4,
{
    reveal(u32_le_bytes);
}

/// The eight little-endian bytes of `v`.
pub open spec fn u64_le_bytes(v: u64) -> Seq<u8> {
    u32_le_bytes((v % 4294967296) as u32) + u32_le_bytes((v / 4294967296) as u32)
}

/// Reading back the bytes of a `u32` gives the `u32`.
pub proof fn lemma_u32_le_roundtrip(v: u32, pre: Seq<u8>, post: Seq<u8>)
    ensures
        le_u32(pre + u32_le_bytes(v) + post, pre.len() as int) == v as int,
{
    reveal(u32_le_bytes);
    reveal(le_u32);
    let b = pre + u32_le_bytes(v) + post;
    let p = pre.len() as int;
    assert(b[p] == (v % 256) as u8);
    assert(b[p + 1] == ((v / 256) % 256) as u8);
    assert(b[p + 2] == ((v / 65536) % 256) as u8);
    assert(b[p + 3] == ((v / 16777216) % 256) as u8);
    assert(v == v % 256 + 256 * ((v / 256) % 256) + 65536 * ((v / 65536) % 256) + 16777216 * ((
    v / 16777216) % 256)) by (bit_vector);
}

/// Reading back the bytes of a `u64` gives the `u64`.
pub proof fn lemma_u64_le_roundtrip(v: u64, pre: Seq<u8>, post: Seq<u8>)
    ensures
        le_u64(pre + u64_le_bytes(v) + post, pre.len() as int) == v as int,
{
    let lo = (v % 4294967296) as u32;
    let hi = (v / 4294967296) as u32;
    lemma_u32_le_bytes_len(lo);
    lemma_u32_le_bytes_len(hi);
    let b = pre + u64_le_bytes(v) + post;
    assert(b =~= pre + u32_le_bytes(lo) + (u32_le_bytes(hi) + post));
    lemma_u32_le_roundtrip(lo, pre, u32_le_bytes(hi) + post);
    assert(b =~= (pre + u32_le_bytes(lo)) + u32_le_bytes(hi) + post);
    lemma_u32_le_roundtrip(hi, pre + u32_le_bytes(lo), post);
    assert(v == v % 4294967296 + 4294967296 * (v / 4294967296)) by (bit_vector);
}

/// Appends the four little-endian bytes of `v`.
pub fn push_u32_le(out: &mut Vec<u8>, v: u32)
    ensures
        final(out)@ == old(out)@ + u32_le_bytes(v),
{
    reveal(u32_le_bytes);
    out.push((v % 256) as u8);
    out.push(((v / 256) % 256) as u8);
    out.push(((v / 65536) % 256) as u8);
    out.push(((v / 16777216) % 256) as u8);
    assert(final(out)@ =~= old(out)@ + u32_le_bytes(v));
}

/// Appends the eight little-endian bytes of `v`.
pub fn push_u64_le(out: &mut Vec<u8>, v: u64)
    ensures
        final(out)@ == old(out)@ + u64_le_bytes(v),
{
    proof {
        lemma_u32_le_bytes_len((v % 4294967296) as u32);
    }
    push_u32_le(out, (v % 4294967296) as u32);
    push_u32_le(out, (v / 4294967296) as u32);
    assert(final(out)@ =~= old(out)@ + u64_le_bytes(v));
}

/// Reads four bytes at `p` as a little-endian `u32`.
pub fn read_u32_le(b: &[u8], p: usize) -> (v: u32)
    requires
        p + 4 <= b@.len(),
    ensures
        v as int == le_u32(b@, p as int),
{
    proof {
        reveal(le_u32);
    }
    let b0 = b[p] as u32;
    let b1 = b[p + 1] as u32;
    let b2 = b[p + 2] as u32;
    let b3 = b[p + 3] as u32;
    b0 + 256 * b1 + 65536 * b2 + 16777216 * b3
}

/// Reads eight bytes at `p` as a little-endian `u64`.
pub fn read_u64_le(b: &[u8], p: usize) -> (v: u64)
    requires
        p + 8 <= b@.len(),
    ensures
        v as int == le_u64(b@, p as int),
{
    let _len = b.len();
    let lo = read_u32_le(b, p) as u64;
    let hi = read_u32_le(b, p + 4) as u64;
    lo + 4294967296 * hi
}

/// The concatenation of the encodings `f(s[0]), f(s[1]), ...`.
pub open spec fn enc_seq<T>(s: Seq<T>, f: spec_fn(T) -> Seq<u8>) -> Seq<u8>
    decreases s.len(),
{
    if s.len() == 0 {
        Seq::empty()
    } else {
        enc_seq(s.drop_last(), f) + f(s.last())
    }
}

/// For records of a fixed encoded size `k`, the encoding of a sequence is `k`
/// bytes per record, and record `i` lies at `k * i`.
pub proof fn lemma_enc_seq_layout<T>(s: Seq<T>, f: spec_fn(T) -> Seq<u8>, k: nat, i: int)
    requires
        forall|t: T| #[trigger] f(t).len() == k,
        0 <= i < s.len(),
    ensures
        enc_seq(s, f).len() == k * s.len(),
        enc_seq(s, f).subrange(k * i, k * i + k) == f(s[i]),
    decreases s.len(),
{
    lemma_enc_seq_len(s, f, k);
    let n = s.len() as int;
    if i < n - 1 {
        lemma_enc_seq_layout(s.drop_last(), f, k, i);
        lemma_enc_seq_len(s.drop_last(), f, k);
        assert(k * i + k <= k * (n - 1)) by (nonlinear_arith)
            requires
                i < n - 1,
        ;
        assert(enc_seq(s, f).subrange(k * i, k * i + k) =~= enc_seq(s.drop_last(), f).subrange(
            k * i,
            k * i + k,
        ));
    } else {
        lemma_enc_seq_len(s.drop_last(), f, k);
        assert(k * (n - 1) + k == k * n) by (nonlinear_arith);
        assert(enc_seq(s, f).subrange(k * i, k * i + k) =~= f(s.last()));
    }
}

/// The encoding of a sequence of records of size `k` has `k` bytes per record.
pub proof fn lemma_enc_seq_len<T>(s: Seq<T>, f: spec_fn(T) -> Seq<u8>, k: nat)
    requires
        forall|t: T| #[trigger] f(t).len() == k,
    ensures
        enc_seq(s, f).len() == k * s.len(),
    decreases s.len(),
{
    if s.len() > 0 {
        lemma_enc_seq_len(s.drop_last(), f, k);
        assert(k * (s.len() - 1) + k == k * s.len()) by (nonlinear_arith);
    }
}

/// One step of an encoding loop: the first `i + 1` records encode as the first
/// `i` followed by record `i`.
pub proof fn lemma_enc_seq_step<T>(s: Seq<T>, f: spec_fn(T) -> Seq<u8>, i: int)
    requires
        0 <= i < s.len(),
    ensures
        enc_seq(s.take(i + 1), f) == enc_seq(s.take(i), f) + f(s[i]),
{
    assert(s.take(i + 1).drop_last() =~= s.take(i));
}

} // verus!
