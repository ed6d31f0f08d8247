//! Bit sequences: the ordered, indexable buffer of bits that every other
//! module of this crate reads or fills.
//!
//! The buffer itself is `bit_vec::BitVec`. Verus sees it as an opaque value
//! whose contents are named by [`bits`]; each method this crate calls on it is
//! reached through one small wrapper whose contract is taken on trust.

use crate::error::SignalError;
use bit_vec::BitVec;
use vstd::prelude::*;

verus! {

// ---------------------------------------------------------------------------
// Bytes and bits, mathematically
// ---------------------------------------------------------------------------

/// The weight of bit `k` of a byte, counted from the most significant bit.
pub open spec fn weight(k: int) -> int {
    if k == 0 {
        128
    } else if k == 1 {
        64
    } else if k == 2 {
        32
    } else if k == 3 {
        16
    } else if k == 4 {
        8
    } else if k == 5 {
        4
    } else if k == 6 {
        2
    } else {
        1
    }
}

/// Bit `k` of byte `b`, most significant bit first.
pub open spec fn byte_bit(b: u8, k: int) -> bool {
    (b as int / weight(k)) % 2 == 1
}

/// Each byte becomes eight bits, most significant bit first.
pub open spec fn unpack(bytes: Seq<u8>) -> Seq<bool> {
    Seq::new(8 * bytes.len(), |i: int| byte_bit(bytes[i / 8], i % 8))
}

/// Bit `i` of `s`, or `false` where `s` has no such bit.
pub open spec fn bit_or_pad(s: Seq<bool>, i: int) -> bool {
    0 <= i < s.len() && s[i]
}

/// Bit `k` of the window of `s` that starts at bit `at`.
pub open spec fn window_bit(s: Seq<bool>, at: int, k: int) -> bool {
    bit_or_pad(s, at + k)
}

/// What bit `k` of the window at `at` adds to the byte read there.
pub open spec fn place(s: Seq<bool>, at: int, k: int) -> int {
    if window_bit(s, at, k) {
        weight(k)
    } else {
        0
    }
}

/// The byte made of the eight bits of `s` that start at bit `at`, the first
/// of them most significant; bits past the end of `s` count as `false`.
pub open spec fn byte_from(s: Seq<bool>, at: int) -> u8 {
    (place(s, at, 0) + place(s, at, 1) + place(s, at, 2) + place(s, at, 3) + place(s, at, 4)
        + place(s, at, 5) + place(s, at, 6) + place(s, at, 7)) as u8
}

/// The bits grouped into bytes, eight at a time; a last group of fewer than
/// eight bits is filled up with `false`.
pub open spec fn pack(s: Seq<bool>) -> Seq<u8> {
    Seq::new(((s.len() + 7) / 8) as nat, |j: int| byte_from(s, 8 * j))
}

/// A byte is the sum of the weights of its set bits.
pub proof fn lemma_byte_is_sum_of_bits(b: u8)
    ensures
        b as int == (if byte_bit(b, 0) { 128int } else { 0 })
            + (if byte_bit(b, 1) { 64int } else { 0 })
            + (if byte_bit(b, 2) { 32int } else { 0 })
            + (if byte_bit(b, 3) { 16int } else { 0 })
            + (if byte_bit(b, 4) { 8int } else { 0 })
            + (if byte_bit(b, 5) { 4int } else { 0 })
            + (if byte_bit(b, 6) { 2int } else { 0 })
            + (if byte_bit(b, 7) { 1int } else { 0 }),
{
    assert(b == (if (b / 128u8) % 2u8 == 1u8 { 128u8 } else { 0u8 })
        + (if (b / 64u8) % 2u8 == 1u8 { 64u8 } else { 0u8 })
        + (if (b / 32u8) % 2u8 == 1u8 { 32u8 } else { 0u8 })
        + (if (b / 16u8) % 2u8 == 1u8 { 16u8 } else { 0u8 })
        + (if (b / 8u8) % 2u8 == 1u8 { 8u8 } else { 0u8 })
        + (if (b / 4u8) % 2u8 == 1u8 { 4u8 } else { 0u8 })
        + (if (b / 2u8) % 2u8 == 1u8 { 2u8 } else { 0u8 })
        + (if (b / 1u8) % 2u8 == 1u8 { 1u8 } else { 0u8 })) by (bit_vector);
}

/// Reading the bits of a sum of weights gives back the bits it was made of.
pub proof fn lemma_bits_of_sum(s: Seq<bool>, at: int, k: int)
    requires
        0 <= k < 8,
    ensures
        byte_bit(byte_from(s, at), k) == window_bit(s, at, k),
{
}

/// Packing the bits of whole bytes gives the bytes back.
pub proof fn lemma_pack_unpack(bytes: Seq<u8>)
    ensures
        pack(unpack(bytes)) == bytes,
{
    let s = unpack(bytes);
    assert(pack(s).len() == bytes.len());
    assert forall|j: int| 0 <= j < bytes.len() implies pack(s)[j] == bytes[j] by {
        lemma_byte_is_sum_of_bits(bytes[j]);
        assert forall|k: int| 0 <= k < 8 implies bit_or_pad(s, 8 * j + k) == byte_bit(
            bytes[j],
            k,
        ) by {
            assert((8 * j + k) / 8 == j);
            assert((8 * j + k) % 8 == k);
        }
        assert(bit_or_pad(s, 8 * j + 0) == byte_bit(bytes[j], 0));
        assert(bit_or_pad(s, 8 * j + 1) == byte_bit(bytes[j], 1));
        assert(bit_or_pad(s, 8 * j + 2) == byte_bit(bytes[j], 2));
        assert(bit_or_pad(s, 8 * j + 3) == byte_bit(bytes[j], 3));
        assert(bit_or_pad(s, 8 * j + 4) == byte_bit(bytes[j], 4));
        assert(bit_or_pad(s, 8 * j + 5) == byte_bit(bytes[j], 5));
        assert(bit_or_pad(s, 8 * j + 6) == byte_bit(bytes[j], 6));
        assert(bit_or_pad(s, 8 * j + 7) == byte_bit(bytes[j], 7));
    }
    assert(pack(s) =~= bytes);
}

/// Unpacking the bytes of a byte-aligned bit sequence gives the bits back.
pub proof fn lemma_unpack_pack(s: Seq<bool>)
    requires
        s.len() % 8 == 0,
    ensures
        unpack(pack(s)) == s,
{
    let bytes = pack(s);
    assert(bytes.len() * 8 == s.len());
    assert forall|i: int| 0 <= i < s.len() implies unpack(bytes)[i] == s[i] by {
        let j = i / 8;
        let k = i % 8;
        lemma_bits_of_sum(s, 8 * j, k);
        assert(8 * j + k == i);
    }
    assert(unpack(bytes) =~= s);
}

/// The sequence `s` with bit `k` inverted.
pub open spec fn flipped(s: Seq<bool>, k: int) -> Seq<bool> {
    s.update(k, !s[k])
}

/// The byte `b` with bit `m` inverted, counted from the most significant bit.
pub open spec fn flipped_byte(b: u8, m: int) -> u8 {
    b ^ (128u8 >> (m as u8))
}

/// Inverting bit `m` of a byte inverts that bit and leaves the others.
pub proof fn lemma_flipped_byte_bits(b: u8, m: int, t: int)
    requires
        0 <= m < 8,
        0 <= t < 8,
    ensures
        byte_bit(flipped_byte(b, m), t) == (byte_bit(b, t) != (t == m)),
{
    let x = flipped_byte(b, m);
    let mm = m as u8;
    assert({
        &&& ((x / 128u8) % 2u8 == 1u8) == (((b / 128u8) % 2u8 == 1u8) != (mm == 0u8))
        &&& ((x / 64u8) % 2u8 == 1u8) == (((b / 64u8) % 2u8 == 1u8) != (mm == 1u8))
        &&& ((x / 32u8) % 2u8 == 1u8) == (((b / 32u8) % 2u8 == 1u8) != (mm == 2u8))
        &&& ((x / 16u8) % 2u8 == 1u8) == (((b / 16u8) % 2u8 == 1u8) != (mm == 3u8))
        &&& ((x / 8u8) % 2u8 == 1u8) == (((b / 8u8) % 2u8 == 1u8) != (mm == 4u8))
        &&& ((x / 4u8) % 2u8 == 1u8) == (((b / 4u8) % 2u8 == 1u8) != (mm == 5u8))
        &&& ((x / 2u8) % 2u8 == 1u8) == (((b / 2u8) % 2u8 == 1u8) != (mm == 6u8))
        &&& ((x / 1u8) % 2u8 == 1u8) == (((b / 1u8) % 2u8 == 1u8) != (mm == 7u8))
    }) by (bit_vector)
        requires
            mm < 8,
            x == b ^ (128u8 >> mm),
    ;
}

/// Bytes whose bits agree are the same byte.
pub proof fn lemma_bytes_with_equal_bits(a: u8, b: u8)
    requires
        forall|t: int| 0 <= t < 8 ==> #[trigger] byte_bit(a, t) == byte_bit(b, t),
    ensures
        a == b,
{
    lemma_byte_is_sum_of_bits(a);
    lemma_byte_is_sum_of_bits(b);
    assert(byte_bit(a, 0) == byte_bit(b, 0));
    assert(byte_bit(a, 1) == byte_bit(b, 1));
    assert(byte_bit(a, 2) == byte_bit(b, 2));
    assert(byte_bit(a, 3) == byte_bit(b, 3));
    assert(byte_bit(a, 4) == byte_bit(b, 4));
    assert(byte_bit(a, 5) == byte_bit(b, 5));
    assert(byte_bit(a, 6) == byte_bit(b, 6));
    assert(byte_bit(a, 7) == byte_bit(b, 7));
}

/// One inverted bit among the bits of whole bytes packs into the same bytes
/// with that bit of one byte inverted.
pub proof fn lemma_pack_flipped(bytes: Seq<u8>, k: int)
    requires
        0 <= k < 8 * bytes.len(),
    ensures
        pack(flipped(unpack(bytes), k)) == bytes.update(k / 8, flipped_byte(bytes[k / 8], k % 8)),
{
    let s = unpack(bytes);
    let f = flipped(s, k);
    let j = k / 8;
    let m = k % 8;
    let target = bytes.update(j, flipped_byte(bytes[j], m));
    lemma_pack_unpack(bytes);
    assert(pack(f).len() == bytes.len());
    assert forall|i: int| 0 <= i < bytes.len() implies pack(f)[i] == target[i] by {
        assert forall|t: int| 0 <= t < 8 implies #[trigger] byte_bit(pack(f)[i], t) == byte_bit(
            target[i],
            t,
        ) by {
            lemma_bits_of_sum(f, 8 * i, t);
            lemma_bits_of_sum(s, 8 * i, t);
            assert(pack(s)[i] == bytes[i]);
            assert((8 * i + t) / 8 == i);
            assert((8 * i + t) % 8 == t);
            if i == j {
                lemma_flipped_byte_bits(bytes[j], m, t);
            }
        }
        lemma_bytes_with_equal_bits(pack(f)[i], target[i]);
    }
    assert(pack(f) =~= target);
}

// ---------------------------------------------------------------------------
// The outside buffer
// ---------------------------------------------------------------------------

/// `bit_vec::BitVec`, declared so that it can stand in signatures.
#[verifier::external_type_specification]
#[verifier::external_body]
#[verifier::reject_recursive_types(B)]
pub struct ExBitVec<B>(bit_vec::BitVec<B>);

/// The bits that a `BitVec` holds, first transmitted bit first.
pub uninterp spec fn bits(v: BitVec) -> Seq<bool>;

/// `BitVec::new`: a buffer that holds no bit.
#[verifier::external_body]
pub(crate) fn bitvec_new() -> (r: BitVec)
    ensures
        bits(r) == Seq::<bool>::empty(),
{
    BitVec::new()
}

/// `BitVec::len`: the number of bits held.
#[verifier::external_body]
pub(crate) fn bitvec_len(v: &BitVec) -> (r: usize)
    ensures
        r == bits(*v).len(),
{
    v.len()
}

/// `BitVec::get`: the bit at index `i`, or `None` past the end.
#[verifier::external_body]
pub(crate) fn bitvec_get(v: &BitVec, i: usize) -> (r: Option<bool>)
    ensures
        r == (if i < bits(*v).len() {
            Some(bits(*v)[i as int])
        } else {
            None
        }),
{
    v.get(i)
}

/// `BitVec::push`: appends one bit at the end. The outside method aborts
/// when the length would pass `usize::MAX`, so that case is left out.
#[verifier::external_body]
pub(crate) fn bitvec_push(v: &mut BitVec, bit: bool)
    requires
        bits(*old(v)).len() < usize::MAX,
    ensures
        bits(*final(v)) == bits(*old(v)).push(bit),
{
    v.push(bit)
}

/// `BitVec::insert`: puts one bit at index `at` and shifts the later bits by
/// one. The outside method aborts when `at` is past the end, and its length
/// counter must not pass `usize::MAX`; both cases are left out.
#[verifier::external_body]
pub(crate) fn bitvec_insert(v: &mut BitVec, at: usize, bit: bool)
    requires
        at <= bits(*old(v)).len(),
        bits(*old(v)).len() < usize::MAX,
    ensures
        bits(*final(v)) == bits(*old(v)).insert(at as int, bit),
{
    v.insert(at, bit)
}

/// `Extend::extend` of `BitVec`, fed from `BitVec::iter`: appends the bits of
/// `tail` in order. The outside method aborts when the joint length would
/// pass `usize::MAX`, so that case is left out.
#[verifier::external_body]
pub(crate) fn bitvec_extend(v: &mut BitVec, tail: &BitVec)
    requires
        bits(*old(v)).len() + bits(*tail).len() <= usize::MAX,
    ensures
        bits(*final(v)) == bits(*old(v)) + bits(*tail),
{
    v.extend(tail.iter())
}

/// `BitVec::from_bytes`: each byte becomes eight bits, most significant bit
/// first. The outside function aborts when eight times the number of bytes
/// overflows `usize`, so that case is left out.
#[verifier::external_body]
pub(crate) fn bitvec_from_bytes(bytes: &[u8]) -> (r: BitVec)
    requires
        8 * bytes@.len() <= usize::MAX,
    ensures
        bits(r) == unpack(bytes@),
{
    BitVec::from_bytes(bytes)
}

/// `BitVec::to_bytes`: the first bit becomes the high-order bit of the first
/// byte, and a last group of fewer than eight bits is filled with `false`.
#[verifier::external_body]
pub(crate) fn bitvec_to_bytes(v: &BitVec) -> (r: Vec<u8>)
    ensures
        r@ == pack(bits(*v)),
{
    v.to_bytes()
}

// ---------------------------------------------------------------------------
// The bit buffer's operations
// ---------------------------------------------------------------------------

/// Expands each byte into eight bits, most significant bit first.
pub fn from_bytes(bytes: &[u8]) -> (r: BitVec)
    requires
        8 * bytes@.len() <= usize::MAX,
    ensures
        bits(r) == unpack(bytes@),
        pack(bits(r)) == bytes@,
{
    proof {
        lemma_pack_unpack(bytes@);
    }
    bitvec_from_bytes(bytes)
}

/// Groups the bits into bytes, most significant bit first. A sequence whose
/// length is not a multiple of eight is refused: no bit is dropped or made
/// up.
pub fn to_bytes(seq: &BitVec) -> (r: Result<Vec<u8>, SignalError>)
    ensures
        bits(*seq).len() % 8 == 0 ==> r.is_ok() && r.unwrap()@ == pack(bits(*seq)) && unpack(
            r.unwrap()@,
        ) == bits(*seq),
        bits(*seq).len() % 8 != 0 ==> r == Err::<Vec<u8>, SignalError>(SignalError::Alignment),
{
    if bitvec_len(seq) % 8 != 0 {
        return Err(SignalError::Alignment);
    }
    let bytes = bitvec_to_bytes(seq);
    proof {
        lemma_unpack_pack(bits(*seq));
    }
    Ok(bytes)
}

/// The bits of `a` followed by the bits of `b`.
pub fn concat(a: &BitVec, b: &BitVec) -> (r: BitVec)
    requires
        bits(*a).len() + bits(*b).len() <= usize::MAX,
    ensures
        bits(r) == bits(*a) + bits(*b),
{
    let mut out = bitvec_new();
    bitvec_extend(&mut out, a);
    bitvec_extend(&mut out, b);
    proof {
        assert(Seq::<bool>::empty() + bits(*a) =~= bits(*a));
    }
    out
}

/// The `count` bits of `seq` that start at bit `start`.
pub fn slice(seq: &BitVec, start: usize, count: usize) -> (r: Result<BitVec, SignalError>)
    ensures
        start + count <= bits(*seq).len() ==> r.is_ok() && bits(r.unwrap()) == bits(*seq).subrange(
            start as int,
            start + count,
        ),
        start + count > bits(*seq).len() ==> r.is_err() && r.unwrap_err()
            == SignalError::OutOfBounds,
{
    let n = bitvec_len(seq);
    if start > n || count > n - start {
        return Err(SignalError::OutOfBounds);
    }
    let mut out = bitvec_new();
    let mut i: usize = 0;
    while i < count
        invariant
            i <= count,
            start + count <= n,
            n == bits(*seq).len(),
            bits(out) == bits(*seq).subrange(start as int, start + i),
        decreases count - i,
    {
        let bit = bitvec_get(seq, start + i);
        bitvec_push(&mut out, bit.unwrap());
        proof {
            assert(bits(out) =~= bits(*seq).subrange(start as int, start + i + 1));
        }
        i += 1;
    }
    Ok(out)
}

} // verus!
