//! The package format: a preamble that marks where a package starts, a size
//! field, the payload, and a checksum over the payload's bytes.
//!
//! ```text
//! | 1 0 1 0 1 0 1 0 | size (8 or 16 bits) | payload (8 * size bits) | checksum (8 or 16 bits) |
//! ```
//!
//! Both fields are big-endian. The 8-bit size field goes with
//! CRC-8/BLUETOOTH, the 16-bit size field with CRC-16/IBM-SDLC (X.25). A
//! configuration may leave the checksum out; the package then ends with the
//! payload.

use crate::bits::{
    bits, bitvec_extend, bitvec_get, bitvec_len, bitvec_new, bitvec_to_bytes, byte_from,
    from_bytes, lemma_pack_unpack, pack, slice, unpack, window_bit,
};
use crate::checksum::{checksum16, checksum8, crc16_ibm_sdlc, crc8_bluetooth};
use crate::error::SignalError;
use bit_vec::BitVec;
use vstd::prelude::*;

verus! {

/// Number of bits of the preamble.
pub const PREAMBLE_LEN: usize = 8;

/// The byte whose bits form the preamble.
pub const PREAMBLE_BYTE: u8 = 0b10101010;

// ---------------------------------------------------------------------------
// Configuration
// ---------------------------------------------------------------------------

/// Width of the size field, and of the checksum where there is one.
#[derive(Clone, Copy, Debug, PartialEq, Eq, Structural)]
pub enum FieldWidth {
    /// One byte: payloads of up to 255 bytes, checked by CRC-8/BLUETOOTH.
    Bits8,
    /// Two bytes: payloads of up to 65535 bytes, checked by CRC-16/IBM-SDLC.
    Bits16,
}

impl FieldWidth {
    /// Number of bits of a field of this width.
    pub open spec fn bit_count(self) -> nat {
        match self {
            FieldWidth::Bits8 => 8,
            FieldWidth::Bits16 => 16,
        }
    }

    /// The largest value that a field of this width can hold.
    pub open spec fn max_value(self) -> nat {
        match self {
            FieldWidth::Bits8 => 255,
            FieldWidth::Bits16 => 65535,
        }
    }

    /// Number of bits of a field of this width.
    pub fn bit_len(&self) -> (r: usize)
        ensures
            r == self.bit_count(),
    {
        match self {
            FieldWidth::Bits8 => 8,
            FieldWidth::Bits16 => 16,
        }
    }

    /// The largest payload, in bytes, that the size field can express.
    pub fn max_payload(&self) -> (r: usize)
        ensures
            r == self.max_value(),
    {
        match self {
            FieldWidth::Bits8 => 255,
            FieldWidth::Bits16 => 65535,
        }
    }
}

/// The shape of a package. Sender and receiver must use the same one: it is
/// never read from the stream.
#[derive(Clone, Copy, Debug, PartialEq, Eq, Structural)]
pub struct FrameConfig {
    /// Width of the size field and of the checksum.
    pub width: FieldWidth,
    /// Whether a checksum follows the payload.
    pub checksum: bool,
}

impl FrameConfig {
    /// Short packages: 8-bit size field, CRC-8/BLUETOOTH.
    pub fn short() -> (r: FrameConfig)
        ensures
            r == (FrameConfig { width: FieldWidth::Bits8, checksum: true }),
    {
        FrameConfig { width: FieldWidth::Bits8, checksum: true }
    }

    /// Large packages: 16-bit size field, CRC-16/IBM-SDLC.
    pub fn long() -> (r: FrameConfig)
        ensures
            r == (FrameConfig { width: FieldWidth::Bits16, checksum: true }),
    {
        FrameConfig { width: FieldWidth::Bits16, checksum: true }
    }

    /// A package with a size field of the given width and no checksum.
    pub fn size_only(width: FieldWidth) -> (r: FrameConfig)
        ensures
            r == (FrameConfig { width, checksum: false }),
    {
        FrameConfig { width, checksum: false }
    }

    /// Number of bits that the checksum takes in a package.
    pub open spec fn checksum_bits(self) -> nat {
        if self.checksum {
            self.width.bit_count()
        } else {
            0
        }
    }

    /// Number of bits of a package beyond its payload.
    pub open spec fn overhead(self) -> nat {
        8 + self.width.bit_count() + self.checksum_bits()
    }

    /// Number of bits that the checksum takes in a package.
    pub fn checksum_len(&self) -> (r: usize)
        ensures
            r == self.checksum_bits(),
    {
        if self.checksum {
            self.width.bit_len()
        } else {
            0
        }
    }

    /// Number of bits of a package beyond its payload.
    pub fn overhead_len(&self) -> (r: usize)
        ensures
            r == self.overhead(),
    {
        PREAMBLE_LEN + self.width.bit_len() + self.checksum_len()
    }
}

// ---------------------------------------------------------------------------
// The format, mathematically
// ---------------------------------------------------------------------------

/// The preamble: `10101010`.
pub open spec fn preamble() -> Seq<bool> {
    seq![true, false, true, false, true, false, true, false]
}

/// The checksum that a package of this shape carries for a payload of these
/// bytes. An 8-bit checksum is held in the low byte.
pub open spec fn checksum_of(width: FieldWidth, bytes: Seq<u8>) -> u16 {
    match width {
        FieldWidth::Bits8 => crc8_bluetooth(bytes) as u16,
        FieldWidth::Bits16 => crc16_ibm_sdlc(bytes),
    }
}

/// The bits of a field that holds `value`: big-endian, high byte first, each
/// byte most significant bit first. An 8-bit field holds the low byte.
pub open spec fn field_bits(value: u16, width: FieldWidth) -> Seq<bool> {
    match width {
        FieldWidth::Bits8 => unpack(seq![(value % 256) as u8]),
        FieldWidth::Bits16 => unpack(seq![(value / 256) as u8, (value % 256) as u8]),
    }
}

/// The value of the field whose first bit is bit `at` of `s`.
pub open spec fn field_value(s: Seq<bool>, at: int, width: FieldWidth) -> int {
    match width {
        FieldWidth::Bits8 => byte_from(s, at) as int,
        FieldWidth::Bits16 => 256 * byte_from(s, at) + byte_from(s, at + 8),
    }
}

/// Whether a payload of these bits fits a package of this shape: whole
/// bytes, and no more of them than the size field can count.
pub open spec fn encodable(payload: Seq<bool>, config: FrameConfig) -> bool {
    payload.len() % 8 == 0 && payload.len() / 8 <= config.width.max_value()
}

/// The package that carries `payload` with the given checksum value.
pub open spec fn package_with(payload: Seq<bool>, config: FrameConfig, checksum: u16) -> Seq<
    bool,
> {
    preamble() + field_bits((payload.len() / 8) as u16, config.width) + payload + (
    if config.checksum {
        field_bits(checksum, config.width)
    } else {
        Seq::<bool>::empty()
    })
}

/// The package that carries `payload`.
pub open spec fn encoded(payload: Seq<bool>, config: FrameConfig) -> Seq<bool> {
    package_with(payload, config, checksum_of(config.width, pack(payload)))
}

// ---------------------------------------------------------------------------
// Fields
// ---------------------------------------------------------------------------

/// A byte read at `at` depends only on the eight bits from `at` on.
pub proof fn lemma_byte_from_window(s: Seq<bool>, at: int, t: Seq<bool>, bt: int)
    requires
        forall|k: int| 0 <= k < 8 ==> #[trigger] window_bit(s, at, k) == window_bit(t, bt, k),
    ensures
        byte_from(s, at) == byte_from(t, bt),
{
}

/// A field that was written with `field_bits` reads back as the value
/// written, wherever in a sequence it stands.
pub proof fn lemma_field_round_trip(s: Seq<bool>, at: int, value: u16, width: FieldWidth)
    requires
        0 <= at,
        at + width.bit_count() <= s.len(),
        s.subrange(at, at + width.bit_count()) == field_bits(value, width),
        value <= width.max_value(),
    ensures
        field_value(s, at, width) == value,
{
    let f = field_bits(value, width);
    assert forall|k: int| 0 <= k < width.bit_count() implies #[trigger] window_bit(s, at, k)
        == window_bit(f, 0, k) by {
        assert(s.subrange(at, at + width.bit_count())[k] == s[at + k]);
    }
    assert forall|k: int| 0 <= k < 8 implies #[trigger] window_bit(s, at + 8, k) == window_bit(
        f,
        8,
        k,
    ) || width == FieldWidth::Bits8 by {
        if width == FieldWidth::Bits16 {
            assert(window_bit(s, at, 8 + k) == window_bit(f, 0, 8 + k));
        }
    }
    match width {
        FieldWidth::Bits8 => {
            let bytes = seq![(value % 256) as u8];
            lemma_pack_unpack(bytes);
            assert(pack(f)[0] == byte_from(f, 0));
            lemma_byte_from_window(s, at, f, 0);
        },
        FieldWidth::Bits16 => {
            let bytes = seq![(value / 256) as u8, (value % 256) as u8];
            lemma_pack_unpack(bytes);
            assert(pack(f)[0] == byte_from(f, 0));
            assert(pack(f)[1] == byte_from(f, 8));
            lemma_byte_from_window(s, at, f, 0);
            lemma_byte_from_window(s, at + 8, f, 8);
        },
    }
}

/// The preamble as a bit sequence.
pub fn get_preamble() -> (r: BitVec)
    ensures
        bits(r) == preamble(),
{
    let mut bytes: Vec<u8> = Vec::new();
    bytes.push(PREAMBLE_BYTE);
    let r = from_bytes(bytes.as_slice());
    proof {
        assert(bits(r) =~= preamble());
    }
    r
}

/// Whether `len` bits starting at bit `start` lie within `data`.
pub fn check_within_bounds(data: &BitVec, start: usize, len: usize) -> (r: bool)
    ensures
        r == (start + len <= bits(*data).len()),
        r ==> start + len <= usize::MAX,
{
    let n = bitvec_len(data);
    start <= n && len <= n - start
}

/// The bits of a field that holds `value`, big-endian. An 8-bit field holds
/// the low byte of `value`.
pub fn write_field(value: u16, width: FieldWidth) -> (r: BitVec)
    ensures
        bits(r) == field_bits(value, width),
        bits(r).len() == width.bit_count(),
{
    let mut bytes: Vec<u8> = Vec::new();
    match width {
        FieldWidth::Bits8 => {
            bytes.push((value % 256) as u8);
        },
        FieldWidth::Bits16 => {
            bytes.push((value / 256) as u8);
            bytes.push((value % 256) as u8);
        },
    }
    proof {
        match width {
            FieldWidth::Bits8 => {
                assert(bytes@ =~= seq![(value % 256) as u8]);
            },
            FieldWidth::Bits16 => {
                assert(bytes@ =~= seq![(value / 256) as u8, (value % 256) as u8]);
            },
        }
    }
    from_bytes(bytes.as_slice())
}

/// Reads the big-endian 16-bit value whose first bit is bit `start`.
pub fn read_two_bytes(data: &BitVec, start: usize) -> (r: u16)
    requires
        start + 16 <= bits(*data).len(),
    ensures
        r == field_value(bits(*data), start as int, FieldWidth::Bits16),
{
    read_field(data, start, FieldWidth::Bits16)
}

/// Reads the big-endian value of the field whose first bit is bit `start`.
pub fn read_field(data: &BitVec, start: usize, width: FieldWidth) -> (r: u16)
    requires
        start + width.bit_count() <= bits(*data).len(),
    ensures
        r == field_value(bits(*data), start as int, width),
{
    let part = slice(data, start, width.bit_len()).unwrap();
    let bytes = bitvec_to_bytes(&part);
    proof {
        let s = bits(*data);
        let f = bits(part);
        assert forall|k: int| 0 <= k < 8 implies #[trigger] window_bit(s, start as int, k)
            == window_bit(f, 0, k) by {
            assert(f[k] == s[start + k]);
        }
        lemma_byte_from_window(s, start as int, f, 0);
        assert(bytes@[0] == byte_from(f, 0));
        if width == FieldWidth::Bits16 {
            assert forall|k: int| 0 <= k < 8 implies #[trigger] window_bit(s, start + 8, k)
                == window_bit(f, 8, k) by {
                assert(f[8 + k] == s[start + 8 + k]);
            }
            lemma_byte_from_window(s, start + 8, f, 8);
            assert(bytes@[1] == byte_from(f, 8));
        }
    }
    match width {
        FieldWidth::Bits8 => bytes[0] as u16,
        FieldWidth::Bits16 => (bytes[0] as u16) * 256 + (bytes[1] as u16),
    }
}

// ---------------------------------------------------------------------------
// Encoding
// ---------------------------------------------------------------------------

/// The checksum that a package of this width carries for `payload`, computed
/// over the payload's bytes.
pub fn payload_checksum(payload: &BitVec, width: FieldWidth) -> (r: u16)
    ensures
        r == checksum_of(width, pack(bits(*payload))),
{
    let bytes = bitvec_to_bytes(payload);
    match width {
        FieldWidth::Bits8 => checksum8(bytes.as_slice()) as u16,
        FieldWidth::Bits16 => checksum16(bytes.as_slice()),
    }
}

/// Lays out a package around `payload`, with `checksum` as the value of its
/// checksum field (its low byte where the field has 8 bits). Fails with
/// `Alignment` when the payload is not made of whole bytes and with
/// `PayloadTooLarge` when it has more bytes than the size field can count.
pub fn build_package(payload: &BitVec, config: &FrameConfig, checksum: u16) -> (r: Result<
    BitVec,
    SignalError,
>)
    ensures
        encodable(bits(*payload), *config) ==> r.is_ok() && bits(r.unwrap()) == package_with(
            bits(*payload),
            *config,
            checksum,
        ),
        bits(*payload).len() % 8 != 0 ==> r.is_err() && r.unwrap_err() == SignalError::Alignment,
        bits(*payload).len() % 8 == 0 && bits(*payload).len() / 8 > config.width.max_value()
            ==> r.is_err() && r.unwrap_err() == SignalError::PayloadTooLarge,
{
    let n = bitvec_len(payload);
    if n % 8 != 0 {
        return Err(SignalError::Alignment);
    }
    if n / 8 > config.width.max_payload() {
        return Err(SignalError::PayloadTooLarge);
    }
    let size = (n / 8) as u16;
    let mut package = bitvec_new();
    bitvec_extend(&mut package, &get_preamble());
    bitvec_extend(&mut package, &write_field(size, config.width));
    bitvec_extend(&mut package, payload);
    if config.checksum {
        bitvec_extend(&mut package, &write_field(checksum, config.width));
    }
    proof {
        assert(bits(package) =~= package_with(bits(*payload), *config, checksum));
    }
    Ok(package)
}

/// Wraps `payload` into a package: preamble, size in bytes, the payload, and
/// the checksum of the payload's bytes where the configuration has one.
///
/// Fails with `Alignment` when the payload is not made of whole bytes and
/// with `PayloadTooLarge` when it has more bytes than the size field can
/// count; nothing is ever truncated. An empty payload is a valid one.
pub fn encode_package(data: &BitVec, config: &FrameConfig) -> (r: Result<BitVec, SignalError>)
    ensures
        encodable(bits(*data), *config) ==> r.is_ok() && bits(r.unwrap()) == encoded(
            bits(*data),
            *config,
        ),
        bits(*data).len() % 8 != 0 ==> r.is_err() && r.unwrap_err() == SignalError::Alignment,
        bits(*data).len() % 8 == 0 && bits(*data).len() / 8 > config.width.max_value()
            ==> r.is_err() && r.unwrap_err() == SignalError::PayloadTooLarge,
{
    let checksum = if config.checksum {
        payload_checksum(data, config.width)
    } else {
        0
    };
    build_package(data, config, checksum)
}

// ---------------------------------------------------------------------------
// Decoding, mathematically
// ---------------------------------------------------------------------------

/// Whether the eight bits of `s` from bit `i` on are the preamble.
pub open spec fn preamble_at(s: Seq<bool>, i: int) -> bool {
    0 <= i && i + 8 <= s.len() && s.subrange(i, i + 8) == preamble()
}

/// Index of the first payload bit of the candidate package at offset `i`.
pub open spec fn payload_start(config: FrameConfig, i: int) -> int {
    i + 8 + config.width.bit_count()
}

/// Index just behind the last payload bit of the candidate at offset `i`,
/// as its size field gives it.
pub open spec fn payload_end(s: Seq<bool>, config: FrameConfig, i: int) -> int {
    payload_start(config, i) + 8 * field_value(s, i + 8, config.width)
}

/// Whether every field of the candidate at offset `i` lies within `s`.
pub open spec fn in_bounds(s: Seq<bool>, config: FrameConfig, i: int) -> bool {
    0 <= i && payload_start(config, i) <= s.len() && payload_end(s, config, i)
        + config.checksum_bits() <= s.len()
}

/// The payload bits of the candidate at offset `i`.
pub open spec fn payload_at(s: Seq<bool>, config: FrameConfig, i: int) -> Seq<bool> {
    s.subrange(payload_start(config, i), payload_end(s, config, i))
}

/// The value of the checksum field of the candidate at offset `i`; zero
/// where packages carry no checksum.
pub open spec fn stored_at(s: Seq<bool>, config: FrameConfig, i: int) -> int {
    if config.checksum {
        field_value(s, payload_end(s, config, i), config.width)
    } else {
        0
    }
}

/// What reading a package at offset `i` gives, the preamble left aside: its
/// payload, or the reason why there is no valid package there.
pub open spec fn decoded_at(s: Seq<bool>, config: FrameConfig, i: int) -> Result<
    Seq<bool>,
    SignalError,
> {
    if !in_bounds(s, config, i) {
        Err(SignalError::OutOfBounds)
    } else if config.checksum && stored_at(s, config, i) != checksum_of(
        config.width,
        pack(payload_at(s, config, i)),
    ) {
        Err(SignalError::ChecksumMismatch)
    } else {
        Ok(payload_at(s, config, i))
    }
}

/// Whether the search for a package ends at offset `i`. With a checksum it
/// ends at an offset that holds the preamble and a package that is in bounds
/// and passes its checksum; without one it ends wherever the preamble
/// stands.
pub open spec fn decides(s: Seq<bool>, config: FrameConfig, i: int) -> bool {
    preamble_at(s, i) && (config.checksum ==> decoded_at(s, config, i) is Ok)
}

/// Whether `i` is the lowest offset at which the search ends.
pub open spec fn first_deciding(s: Seq<bool>, config: FrameConfig, i: int) -> bool {
    decides(s, config, i) && forall|j: int| 0 <= j < i ==> !decides(s, config, j)
}

/// The payload that a received sequence decodes to: the one read at the
/// lowest offset at which the search ends, if there is such an offset and
/// the package there is valid.
pub open spec fn decoded(s: Seq<bool>, config: FrameConfig) -> Option<Seq<bool>> {
    if exists|i: int| first_deciding(s, config, i) {
        let i = choose|i: int| first_deciding(s, config, i);
        match decoded_at(s, config, i) {
            Ok(payload) => Some(payload),
            Err(_) => None,
        }
    } else {
        None
    }
}

/// The bits of a decoding result.
pub open spec fn result_bits(r: Result<BitVec, SignalError>) -> Result<Seq<bool>, SignalError> {
    match r {
        Ok(v) => Ok(bits(v)),
        Err(e) => Err(e),
    }
}

/// The bits of an optional bit sequence.
pub open spec fn option_bits(r: Option<BitVec>) -> Option<Seq<bool>> {
    match r {
        Some(v) => Some(bits(v)),
        None => None,
    }
}

/// Why the candidate at offset `j` is passed over, if the preamble stands
/// there and the package read there is not valid.
pub open spec fn failure_at(s: Seq<bool>, config: FrameConfig, j: int) -> Option<SignalError> {
    if preamble_at(s, j) {
        match decoded_at(s, config, j) {
            Ok(_) => None,
            Err(e) => Some(e),
        }
    } else {
        None
    }
}

/// The candidates below offset `upto` that are not valid, in ascending
/// order of their offsets, each with the reason.
pub open spec fn rejections(s: Seq<bool>, config: FrameConfig, upto: int) -> Seq<Rejection>
    decreases upto,
{
    if upto <= 0 {
        Seq::<Rejection>::empty()
    } else {
        let before = rejections(s, config, upto - 1);
        match failure_at(s, config, upto - 1) {
            Some(reason) => before.push(Rejection { offset: (upto - 1) as usize, reason }),
            None => before,
        }
    }
}

/// The offset at which the search stops looking: just behind the lowest
/// deciding offset, or the end of the sequence where there is none.
pub open spec fn search_end(s: Seq<bool>, config: FrameConfig) -> int {
    if exists|i: int| first_deciding(s, config, i) {
        (choose|i: int| first_deciding(s, config, i)) + 1
    } else {
        s.len() as int
    }
}

/// No two offsets are both the lowest deciding one.
pub proof fn lemma_first_deciding_is_unique(s: Seq<bool>, config: FrameConfig, i: int, c: int)
    requires
        first_deciding(s, config, i),
        first_deciding(s, config, c),
    ensures
        i == c,
{
    if c < i {
        assert(preamble_at(s, c));
        assert(!decides(s, config, c));
    }
    if i < c {
        assert(preamble_at(s, i));
        assert(!decides(s, config, i));
    }
}

/// The lowest deciding offset settles what a sequence decodes to.
pub proof fn lemma_decoded_at_first(s: Seq<bool>, config: FrameConfig, i: int)
    requires
        first_deciding(s, config, i),
    ensures
        decoded(s, config) == (match decoded_at(s, config, i) {
            Ok(payload) => Some(payload),
            Err(_) => None::<Seq<bool>>,
        }),
        search_end(s, config) == i + 1,
{
    let c = choose|c: int| first_deciding(s, config, c);
    assert(first_deciding(s, config, c));
    lemma_first_deciding_is_unique(s, config, i, c);
}

/// A sequence in which the search never ends decodes to nothing, and the
/// search runs to its end.
pub proof fn lemma_decoded_nowhere(s: Seq<bool>, config: FrameConfig)
    requires
        forall|j: int| 0 <= j < s.len() ==> !decides(s, config, j),
    ensures
        decoded(s, config) is None,
        search_end(s, config) == s.len(),
{
    assert forall|i: int| !first_deciding(s, config, i) by {
        if decides(s, config, i) {
            assert(0 <= i < s.len());
        }
    }
}

// ---------------------------------------------------------------------------
// Decoding
// ---------------------------------------------------------------------------

/// A candidate that the search passed over: where its preamble stood, and
/// why the package read there was not valid.
#[derive(Clone, Copy, Debug, PartialEq, Eq, Structural)]
pub struct Rejection {
    /// Offset of the candidate's preamble.
    pub offset: usize,
    /// `OutOfBounds` or `ChecksumMismatch`.
    pub reason: SignalError,
}

/// What a search found: the payload, if any, and the candidates that were
/// passed over on the way.
#[derive(Debug)]
pub struct Scan {
    /// The payload of the package found.
    pub payload: Option<BitVec>,
    /// The candidates passed over, in ascending order of their offsets.
    pub rejected: Vec<Rejection>,
}

/// A candidate package, read but not yet checked against its checksum.
#[derive(Debug)]
pub struct Candidate {
    /// The payload bits.
    pub payload: BitVec,
    /// The value of the checksum field; zero where packages carry none.
    pub stored: u16,
}

/// Whether the bits of `received` from bit `offset` on start with `pattern`.
pub fn matches_at(received: &BitVec, pattern: &BitVec, offset: usize) -> (r: bool)
    ensures
        r == (offset + bits(*pattern).len() <= bits(*received).len() && bits(*received).subrange(
            offset as int,
            offset + bits(*pattern).len(),
        ) == bits(*pattern)),
{
    let n = bitvec_len(received);
    let m = bitvec_len(pattern);
    if offset > n || m > n - offset {
        return false;
    }
    let ghost s = bits(*received);
    let ghost p = bits(*pattern);
    let mut k: usize = 0;
    while k < m
        invariant
            k <= m,
            offset + m <= n,
            n == s.len(),
            m == p.len(),
            s == bits(*received),
            p == bits(*pattern),
            s.subrange(offset as int, offset + k) == p.subrange(0, k as int),
        decreases m - k,
    {
        let a = bitvec_get(received, offset + k).unwrap();
        let b = bitvec_get(pattern, k).unwrap();
        if a != b {
            proof {
                assert(s.subrange(offset as int, offset + m)[k as int] != p[k as int]);
            }
            return false;
        }
        proof {
            assert(s.subrange(offset as int, offset + k + 1) =~= p.subrange(0, k + 1));
        }
        k += 1;
    }
    proof {
        assert(p.subrange(0, m as int) =~= p);
    }
    true
}

/// Reads the size field, the payload and the checksum field of the candidate
/// package whose preamble would start at bit `offset`. Fails with
/// `OutOfBounds` when a field would reach past the end of `received`.
pub fn read_candidate(received: &BitVec, config: &FrameConfig, offset: usize) -> (r: Result<
    Candidate,
    SignalError,
>)
    ensures
        in_bounds(bits(*received), *config, offset as int) ==> r.is_ok() && bits(
            r.unwrap().payload,
        ) == payload_at(bits(*received), *config, offset as int) && r.unwrap().stored == stored_at(
            bits(*received),
            *config,
            offset as int,
        ),
        !in_bounds(bits(*received), *config, offset as int) ==> r.is_err() && r.unwrap_err()
            == SignalError::OutOfBounds,
{
    let width = config.width;
    let head = PREAMBLE_LEN + width.bit_len();
    if !check_within_bounds(received, offset, head) {
        return Err(SignalError::OutOfBounds);
    }
    let size = read_field(received, offset + PREAMBLE_LEN, width);
    let data_index = offset + head;
    let data_len = 8 * (size as usize);
    if !check_within_bounds(received, data_index, data_len + config.checksum_len()) {
        return Err(SignalError::OutOfBounds);
    }
    let payload = slice(received, data_index, data_len).unwrap();
    let stored = if config.checksum {
        read_field(received, data_index + data_len, width)
    } else {
        0
    };
    Ok(Candidate { payload, stored })
}

/// Holds a candidate's checksum field against the checksum computed over its
/// payload: the payload where they agree or where packages carry no
/// checksum, `ChecksumMismatch` where they differ.
pub fn verify_candidate(candidate: Candidate, config: &FrameConfig, computed: u16) -> (r: Result<
    BitVec,
    SignalError,
>)
    ensures
        config.checksum && candidate.stored != computed ==> r.is_err() && r.unwrap_err()
            == SignalError::ChecksumMismatch,
        !(config.checksum && candidate.stored != computed) ==> r.is_ok() && r.unwrap()
            == candidate.payload,
{
    if config.checksum && candidate.stored != computed {
        Err(SignalError::ChecksumMismatch)
    } else {
        Ok(candidate.payload)
    }
}

/// Reads and checks the package whose preamble would start at bit `offset`:
/// `OutOfBounds` when a field would reach past the end of `received`,
/// `ChecksumMismatch` when the checksum field differs from the checksum of
/// the payload read, and the payload otherwise. Whether the preamble stands
/// at `offset` is not looked at.
pub fn decode_at(received: &BitVec, config: &FrameConfig, offset: usize) -> (r: Result<
    BitVec,
    SignalError,
>)
    ensures
        result_bits(r) == decoded_at(bits(*received), *config, offset as int),
{
    match read_candidate(received, config, offset) {
        Ok(candidate) => {
            let computed = if config.checksum {
                payload_checksum(&candidate.payload, config.width)
            } else {
                0
            };
            verify_candidate(candidate, config, computed)
        },
        Err(e) => Err(e),
    }
}

/// Searches a received sequence for a package, and keeps a record of the
/// candidates that were not valid.
///
/// Offsets are tried in ascending order. With a checksum, the first offset
/// that holds the preamble and a package that is in bounds and passes its
/// checksum wins: a preamble pattern that sits by chance in front of the
/// package, or in the payload, is passed over and recorded. Without a
/// checksum the first offset that holds the preamble is taken as it is, and
/// recorded if the package read there is out of bounds.
pub fn scan_package(package_bits: &BitVec, config: &FrameConfig) -> (r: Scan)
    ensures
        option_bits(r.payload) == decoded(bits(*package_bits), *config),
        r.rejected@ == rejections(
            bits(*package_bits),
            *config,
            search_end(bits(*package_bits), *config),
        ),
{
    let preamble_bits = get_preamble();
    let n = bitvec_len(package_bits);
    let ghost s = bits(*package_bits);
    let mut rejected: Vec<Rejection> = Vec::new();
    let mut i: usize = 0;
    while i < n
        invariant
            i <= n,
            n == s.len(),
            s == bits(*package_bits),
            bits(preamble_bits) == preamble(),
            forall|j: int| 0 <= j < i ==> !decides(s, *config, j),
            rejected@ == rejections(s, *config, i as int),
        decreases n - i,
    {
        if matches_at(package_bits, &preamble_bits, i) {
            let outcome = decode_at(package_bits, config, i);
            proof {
                assert(preamble_at(s, i as int));
            }
            match outcome {
                Ok(data) => {
                    proof {
                        lemma_decoded_at_first(s, *config, i as int);
                    }
                    return Scan { payload: Some(data), rejected };
                },
                Err(reason) => {
                    rejected.push(Rejection { offset: i, reason });
                    if !config.checksum {
                        proof {
                            lemma_decoded_at_first(s, *config, i as int);
                        }
                        return Scan { payload: None, rejected };
                    }
                },
            }
        }
        i += 1;
    }
    proof {
        lemma_decoded_nowhere(s, *config);
    }
    Scan { payload: None, rejected }
}

/// Finds the package in a received sequence and returns its payload: the
/// one of the first offset, in ascending order, at which the search ends.
/// `None` when no offset gives a package.
pub fn decode_package(package_bits: &BitVec, config: &FrameConfig) -> (r: Option<BitVec>)
    ensures
        option_bits(r) == decoded(bits(*package_bits), *config),
{
    scan_package(package_bits, config).payload
}

} // verus!
