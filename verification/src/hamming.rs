//! Hamming(7,4): four data bits travel as a seven-bit word that survives the
//! inversion of any one of its bits.
//!
//! A nibble `d1 d2 d3 d4` becomes the word `p1 p2 d1 p4 d2 d3 d4`, held in
//! the low seven bits of a byte, with
//! `p1 = d1 ^ d2 ^ d4`, `p2 = d1 ^ d3 ^ d4`, `p4 = d2 ^ d3 ^ d4`.
//!
//! Two inverted bits in one word cannot be told from one inverted bit in
//! another word: the decoder then returns a wrong nibble and reports one
//! corrected error. That is a limit of the code, not of this module.

use vstd::prelude::*;

verus! {

// ---------------------------------------------------------------------------
// The code, mathematically
// ---------------------------------------------------------------------------

/// Bit `k` of `x`, counted from the least significant bit.
pub open spec fn bit(x: u8, k: u8) -> bool {
    (x >> k) & 1 == 1
}

/// Exclusive or of three bits.
pub open spec fn xor3(a: bool, b: bool, c: bool) -> bool {
    (a != b) != c
}

/// Exclusive or of four bits.
pub open spec fn xor4(a: bool, b: bool, c: bool, d: bool) -> bool {
    ((a != b) != c) != d
}

/// The seven-bit word with the given bits, first bit most significant.
pub open spec fn word(b1: bool, b2: bool, b3: bool, b4: bool, b5: bool, b6: bool, b7: bool) -> u8 {
    (if b1 { 64u8 } else { 0u8 }) | (if b2 { 32u8 } else { 0u8 }) | (if b3 { 16u8 } else { 0u8 })
        | (if b4 { 8u8 } else { 0u8 }) | (if b5 { 4u8 } else { 0u8 }) | (if b6 { 2u8 } else { 0u8 })
        | (if b7 { 1u8 } else { 0u8 })
}

/// The codeword of the nibble in the low four bits of `data`.
pub open spec fn codeword(data: u8) -> u8 {
    let d1 = bit(data, 3);
    let d2 = bit(data, 2);
    let d3 = bit(data, 1);
    let d4 = bit(data, 0);
    word(xor3(d1, d2, d4), xor3(d1, d3, d4), d1, xor3(d2, d3, d4), d2, d3, d4)
}

/// The syndrome of a received word: zero when every parity holds, else the
/// position, counted from 1 at the word's first bit, of the bit to invert.
pub open spec fn syndrome(received: u8) -> u8 {
    let c1 = xor4(bit(received, 6), bit(received, 4), bit(received, 2), bit(received, 0));
    let c2 = xor4(bit(received, 5), bit(received, 4), bit(received, 1), bit(received, 0));
    let c4 = xor4(bit(received, 3), bit(received, 2), bit(received, 1), bit(received, 0));
    (if c4 { 4u8 } else { 0u8 }) | (if c2 { 2u8 } else { 0u8 }) | (if c1 { 1u8 } else { 0u8 })
}

/// The received word with the bit that the syndrome points at inverted.
pub open spec fn corrected(received: u8) -> u8 {
    if syndrome(received) == 0 {
        received
    } else {
        received ^ (1u8 << ((7 - syndrome(received)) as u8))
    }
}

/// The nibble held in the data positions of a word.
pub open spec fn data_of(w: u8) -> u8 {
    (if bit(w, 4) { 8u8 } else { 0u8 }) | (if bit(w, 2) { 4u8 } else { 0u8 }) | (if bit(w, 1) {
        2u8
    } else {
        0u8
    }) | (if bit(w, 0) { 1u8 } else { 0u8 })
}

/// The nibble that a received word stands for.
pub open spec fn nibble_of(received: u8) -> u8 {
    data_of(corrected(received))
}

/// The codewords of a byte sequence: two per byte, high nibble first.
pub open spec fn codewords(bytes: Seq<u8>) -> Seq<u8> {
    Seq::new(
        2 * bytes.len(),
        |j: int|
            if j % 2 == 0 {
                codeword(bytes[j / 2] / 16)
            } else {
                codeword(bytes[j / 2] % 16)
            },
    )
}

/// The byte that two received words stand for, high nibble first.
pub open spec fn byte_of(high: u8, low: u8) -> u8 {
    (16 * nibble_of(high) + nibble_of(low)) as u8
}

/// The bytes that a sequence of received words stands for, two words per
/// byte.
pub open spec fn bytes_of(words: Seq<u8>) -> Seq<u8> {
    Seq::new(words.len() / 2, |i: int| byte_of(words[2 * i], words[2 * i + 1]))
}

/// Whether any of the first `n` received words fails a parity.
pub open spec fn any_error(words: Seq<u8>, n: int) -> bool {
    exists|j: int| 0 <= j < n && j < words.len() && syndrome(#[trigger] words[j]) != 0
}

// ---------------------------------------------------------------------------
// Nibbles
// ---------------------------------------------------------------------------

/// Encodes the nibble in the low four bits of `data` into its seven-bit
/// codeword. The high four bits of `data` are not looked at.
pub fn hamming_encode(data: u8) -> (r: u8)
    ensures
        r == codeword(data),
        r < 128,
{
    let d1 = (data >> 3) & 1;
    let d2 = (data >> 2) & 1;
    let d3 = (data >> 1) & 1;
    let d4 = (data >> 0) & 1;

    let p1 = d1 ^ d2 ^ d4;
    let p2 = d1 ^ d3 ^ d4;
    let p4 = d2 ^ d3 ^ d4;

    assert(p1 <= 1 && p2 <= 1 && p4 <= 1 && d1 <= 1 && d2 <= 1 && d3 <= 1) by (bit_vector)
        requires
            d1 == (data >> 3) & 1,
            d2 == (data >> 2) & 1,
            d3 == (data >> 1) & 1,
            d4 == (data >> 0) & 1,
            p1 == d1 ^ d2 ^ d4,
            p2 == d1 ^ d3 ^ d4,
            p4 == d2 ^ d3 ^ d4,
    ;
    let r = (p1 << 6) | (p2 << 5) | (d1 << 4) | (p4 << 3) | (d2 << 2) | (d3 << 1) | d4;
    assert(r == codeword(data) && r < 128) by (bit_vector)
        requires
            d1 == (data >> 3) & 1,
            d2 == (data >> 2) & 1,
            d3 == (data >> 1) & 1,
            d4 == (data >> 0) & 1,
            p1 == d1 ^ d2 ^ d4,
            p2 == d1 ^ d3 ^ d4,
            p4 == d2 ^ d3 ^ d4,
            r == (p1 << 6) | (p2 << 5) | (d1 << 4) | (p4 << 3) | (d2 << 2) | (d3 << 1) | d4,
    ;
    r
}

/// Decodes a received seven-bit word: the nibble it stands for after the
/// correction of at most one inverted bit, and whether a correction was
/// made. Bit 7 of `encoded` is not looked at.
pub fn hamming_decode(encoded: u8) -> (r: (u8, bool))
    ensures
        r.0 == nibble_of(encoded),
        r.1 == (syndrome(encoded) != 0),
        r.0 < 16,
{
    let p1 = (encoded >> 6) & 1;
    let p2 = (encoded >> 5) & 1;
    let d1 = (encoded >> 4) & 1;
    let p4 = (encoded >> 3) & 1;
    let d2 = (encoded >> 2) & 1;
    let d3 = (encoded >> 1) & 1;
    let d4 = (encoded >> 0) & 1;

    let c1 = p1 ^ d1 ^ d2 ^ d4;
    let c2 = p2 ^ d1 ^ d3 ^ d4;
    let c4 = p4 ^ d2 ^ d3 ^ d4;
    assert(c1 <= 1 && c2 <= 1 && c4 <= 1) by (bit_vector)
        requires
            c1 == ((encoded >> 6) & 1) ^ ((encoded >> 4) & 1) ^ ((encoded >> 2) & 1) ^ ((encoded
                >> 0) & 1),
            c2 == ((encoded >> 5) & 1) ^ ((encoded >> 4) & 1) ^ ((encoded >> 1) & 1) ^ ((encoded
                >> 0) & 1),
            c4 == ((encoded >> 3) & 1) ^ ((encoded >> 2) & 1) ^ ((encoded >> 1) & 1) ^ ((encoded
                >> 0) & 1),
    ;
    let error_position = (c4 << 2) | (c2 << 1) | c1;
    assert(error_position == syndrome(encoded) && error_position <= 7) by (bit_vector)
        requires
            c1 == ((encoded >> 6) & 1) ^ ((encoded >> 4) & 1) ^ ((encoded >> 2) & 1) ^ ((encoded
                >> 0) & 1),
            c2 == ((encoded >> 5) & 1) ^ ((encoded >> 4) & 1) ^ ((encoded >> 1) & 1) ^ ((encoded
                >> 0) & 1),
            c4 == ((encoded >> 3) & 1) ^ ((encoded >> 2) & 1) ^ ((encoded >> 1) & 1) ^ ((encoded
                >> 0) & 1),
            error_position == (c4 << 2) | (c2 << 1) | c1,
    ;

    let mut corrected_word = encoded;
    let error_detected = error_position != 0;

    if error_detected {
        corrected_word ^= 1 << (7 - error_position);
    }
    assert(corrected_word == corrected(encoded));

    let decoded_data = (corrected_word & 0x7) | ((corrected_word >> 1) & 0x8);
    assert(decoded_data == data_of(corrected_word) && decoded_data < 16) by (bit_vector)
        requires
            decoded_data == (corrected_word & 0x7) | ((corrected_word >> 1) & 0x8),
    ;
    (decoded_data, error_detected)
}

// ---------------------------------------------------------------------------
// What the code guarantees
// ---------------------------------------------------------------------------

/// A codeword that arrives as it was sent decodes to its nibble, and no
/// error is reported.
pub proof fn theorem_clean_word(data: u8)
    by (bit_vector)
    requires
        data < 16,
    ensures
        syndrome(codeword(data)) == 0,
        nibble_of(codeword(data)) == data,
{
}

/// A codeword with any one of its seven bits inverted still decodes to its
/// nibble, and an error is reported.
pub proof fn theorem_single_error_corrected(data: u8, k: u8)
    by (bit_vector)
    requires
        data < 16,
        k < 7,
    ensures
        syndrome(codeword(data) ^ (1u8 << k)) != 0,
        nibble_of(codeword(data) ^ (1u8 << k)) == data,
{
}

/// The syndrome of a word with one inverted bit is the position of that
/// bit, counted from 1 at the word's first bit.
pub proof fn theorem_syndrome_locates_error(data: u8, k: u8)
    by (bit_vector)
    requires
        data < 16,
        k < 7,
    ensures
        syndrome(codeword(data) ^ (1u8 << k)) == 7 - k,
        corrected(codeword(data) ^ (1u8 << k)) == codeword(data),
{
}

/// A codeword held in a byte, with any one of the byte's eight bits
/// inverted, still decodes to its nibble. An error is reported unless the
/// inverted bit is the byte's most significant one, which is no part of the
/// word. `m` counts from the most significant bit.
pub proof fn theorem_single_error_in_byte(data: u8, m: u8)
    by (bit_vector)
    requires
        data < 16,
        m < 8,
    ensures
        nibble_of(codeword(data) ^ (128u8 >> m)) == data,
        (syndrome(codeword(data) ^ (128u8 >> m)) != 0) == (m != 0),
{
}

/// The codewords of a byte sequence decode to that sequence, with no error
/// reported.
pub proof fn theorem_bytes_round_trip(bytes: Seq<u8>)
    ensures
        bytes_of(codewords(bytes)) == bytes,
        !any_error(codewords(bytes), codewords(bytes).len() as int),
{
    let words = codewords(bytes);
    assert forall|i: int| 0 <= i < bytes.len() implies bytes_of(words)[i] == bytes[i] by {
        let b = bytes[i];
        assert(words[2 * i] == codeword(b / 16));
        assert(words[2 * i + 1] == codeword(b % 16));
        theorem_clean_word(b / 16);
        theorem_clean_word(b % 16);
    }
    assert(bytes_of(words) =~= bytes);
    assert forall|j: int| 0 <= j < words.len() implies syndrome(#[trigger] words[j]) == 0 by {
        let b = bytes[j / 2];
        theorem_clean_word(b / 16);
        theorem_clean_word(b % 16);
    }
}

// ---------------------------------------------------------------------------
// Bytes
// ---------------------------------------------------------------------------

/// Encodes each byte as two codewords, the one of its high nibble first.
pub fn to_hamming(encoded: &Vec<u8>) -> (r: Vec<u8>)
    ensures
        r@ == codewords(encoded@),
{
    let mut encoded_hamming: Vec<u8> = Vec::new();
    let mut i: usize = 0;
    while i < encoded.len()
        invariant
            i <= encoded.len(),
            encoded_hamming@.len() == 2 * i,
            forall|j: int| 0 <= j < 2 * i ==> encoded_hamming@[j] == codewords(encoded@)[j],
        decreases encoded.len() - i,
    {
        let byte = encoded[i];
        let d1 = byte >> 4;
        let d2 = byte & 0x0F;
        assert(d1 == byte / 16 && d2 == byte % 16) by (bit_vector)
            requires
                d1 == byte >> 4,
                d2 == byte & 0x0F,
        ;
        encoded_hamming.push(hamming_encode(d1));
        encoded_hamming.push(hamming_encode(d2));
        i += 1;
    }
    assert(encoded_hamming@ =~= codewords(encoded@));
    encoded_hamming
}

/// Decodes two received words into the byte they stand for, high nibble
/// first, and tells whether either word needed a correction.
pub fn hamming_decode_byte(high: u8, low: u8) -> (r: (u8, bool))
    ensures
        r.0 == byte_of(high, low),
        r.1 == (syndrome(high) != 0 || syndrome(low) != 0),
{
    let (h, h_error) = hamming_decode(high);
    let (l, l_error) = hamming_decode(low);
    (h * 16 + l, h_error || l_error)
}

/// Decodes received words, two per byte, into the bytes they stand for, and
/// tells whether any word needed a correction. `None` when the number of
/// words is odd: a byte takes two.
pub fn from_hamming(words: &Vec<u8>) -> (r: Option<(Vec<u8>, bool)>)
    ensures
        words@.len() % 2 != 0 ==> r is None,
        words@.len() % 2 == 0 ==> r is Some && r.unwrap().0@ == bytes_of(words@) && r.unwrap().1
            == any_error(words@, words@.len() as int),
{
    let n = words.len();
    if n % 2 != 0 {
        return None;
    }
    let mut bytes: Vec<u8> = Vec::new();
    let mut any: bool = false;
    let mut i: usize = 0;
    while i < n / 2
        invariant
            n == words@.len(),
            n % 2 == 0,
            i <= n / 2,
            bytes@.len() == i,
            forall|j: int| 0 <= j < i ==> bytes@[j] == bytes_of(words@)[j],
            any == any_error(words@, 2 * i),
        decreases n / 2 - i,
    {
        let (byte, error) = hamming_decode_byte(words[2 * i], words[2 * i + 1]);
        bytes.push(byte);
        proof {
            let before = any_error(words@, 2 * i);
            let after = any_error(words@, 2 * i + 2);
            if before {
                let j = choose|j: int|
                    0 <= j < 2 * i && j < words@.len() && syndrome(#[trigger] words@[j]) != 0;
                assert(0 <= j < 2 * i + 2 && syndrome(words@[j]) != 0);
            }
            if error {
                if syndrome(words@[2 * i as int]) != 0 {
                    assert(0 <= 2 * i < 2 * i + 2 && syndrome(words@[2 * i as int]) != 0);
                } else {
                    assert(0 <= 2 * i + 1 < 2 * i + 2 && syndrome(words@[2 * i + 1]) != 0);
                }
            }
            if after {
                let j = choose|j: int|
                    0 <= j < 2 * i + 2 && j < words@.len() && syndrome(#[trigger] words@[j]) != 0;
                if j < 2 * i {
                    assert(before);
                } else {
                    assert(j == 2 * i || j == 2 * i + 1);
                    assert(error);
                }
            }
            assert(after == (before || error));
        }
        any = any || error;
        i += 1;
    }
    assert(bytes@ =~= bytes_of(words@));
    Some((bytes, any))
}

} // verus!
