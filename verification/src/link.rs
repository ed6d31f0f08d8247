//! Sending and receiving through the channel, the channel itself left out:
//! what goes in on the sending side, and what is made of whatever comes out
//! on the receiving side.
//!
//! The sender wraps the payload into a package, after the Hamming code where
//! the configuration asks for it, and may put silence (bits that are all
//! `false`) in front of the package and behind it. The receiver searches the
//! received bits for the package and undoes the Hamming code. Carrying the
//! bits from one to the other is the caller's part.

use crate::bits::{
    bits, bitvec_insert, bitvec_len, bitvec_push, flipped, flipped_byte, from_bytes,
    lemma_pack_flipped, lemma_pack_unpack, lemma_unpack_pack, pack, to_bytes, unpack,
};
use crate::error::SignalError;
use crate::guarantees::theorem_silent_lead;
use crate::hamming::{
    any_error, bytes_of, codeword, codewords, from_hamming, nibble_of, syndrome,
    theorem_bytes_round_trip, theorem_clean_word, theorem_single_error_in_byte, to_hamming,
};
use crate::signal::{
    decode_package, decoded, decoded_at, encodable, encode_package, encoded, field_bits,
    first_deciding, FrameConfig,
};
use bit_vec::BitVec;
use vstd::prelude::*;

verus! {

/// How a payload travels: the shape of its package, whether the Hamming
/// code protects it, and how much silence surrounds the package.
#[derive(Clone, Copy, Debug, PartialEq, Eq, Structural)]
pub struct LinkConfig {
    /// The shape of the package.
    pub frame: FrameConfig,
    /// Whether the payload is Hamming-encoded before it is wrapped.
    pub fec: bool,
    /// Number of `false` bits sent in front of the package.
    pub lead: usize,
    /// Number of `false` bits sent behind the package.
    pub trail: usize,
}

/// What was received: the payload, and whether the Hamming code had to
/// correct any word of it.
#[derive(Debug)]
pub struct Reception {
    /// The payload bits.
    pub payload: BitVec,
    /// Whether any word needed a correction; `false` without the code.
    pub corrected: bool,
}

// ---------------------------------------------------------------------------
// The link, mathematically
// ---------------------------------------------------------------------------

/// `n` bits that are all `false`.
pub open spec fn silence(n: nat) -> Seq<bool> {
    Seq::new(n, |i: int| false)
}

/// The bits that are wrapped into the package: the payload itself, or the
/// codewords of its bytes.
pub open spec fn body_of(payload: Seq<bool>, fec: bool) -> Seq<bool> {
    if fec {
        unpack(codewords(pack(payload)))
    } else {
        payload
    }
}

/// Whether a payload can be sent: whole bytes, and a body that the size
/// field can count.
pub open spec fn sendable(payload: Seq<bool>, config: LinkConfig) -> bool {
    payload.len() % 8 == 0 && encodable(body_of(payload, config.fec), config.frame)
}

/// The bits handed to the channel for a payload.
pub open spec fn outgoing(payload: Seq<bool>, config: LinkConfig) -> Seq<bool> {
    silence(config.lead as nat) + encoded(body_of(payload, config.fec), config.frame) + silence(
        config.trail as nat,
    )
}

/// What the body of a decoded package yields: the payload and whether a
/// word was corrected, or `DecodeFailure` where the Hamming code is on and
/// the body is not a whole number of word pairs.
pub open spec fn opened(body: Seq<bool>, fec: bool) -> Result<(Seq<bool>, bool), SignalError> {
    if !fec {
        Ok((body, false))
    } else if body.len() % 16 != 0 {
        Err(SignalError::DecodeFailure)
    } else {
        Ok((unpack(bytes_of(pack(body))), any_error(pack(body), pack(body).len() as int)))
    }
}

/// What is made of the bits that the channel hands back.
pub open spec fn incoming(received: Seq<bool>, config: LinkConfig) -> Result<
    (Seq<bool>, bool),
    SignalError,
> {
    match decoded(received, config.frame) {
        Some(body) => opened(body, config.fec),
        None => Err(SignalError::DecodeFailure),
    }
}

/// The payload and the flag of a reception.
pub open spec fn reception_bits(r: Result<Reception, SignalError>) -> Result<
    (Seq<bool>, bool),
    SignalError,
> {
    match r {
        Ok(reception) => Ok((bits(reception.payload), reception.corrected)),
        Err(e) => Err(e),
    }
}

/// Whatever decodes is made of whole bytes.
pub proof fn lemma_decoded_is_aligned(s: Seq<bool>, config: FrameConfig)
    requires
        decoded(s, config) is Some,
    ensures
        decoded(s, config).unwrap().len() % 8 == 0,
        decoded(s, config).unwrap().len() <= s.len(),
{
    let i = choose|i: int| first_deciding(s, config, i);
    assert(first_deciding(s, config, i));
    assert(decoded_at(s, config, i) is Ok);
}

/// What is sent for a payload is received as that payload, with no
/// correction reported, when the channel hands back the bits it was given.
pub proof fn theorem_link_round_trip(payload: Seq<bool>, config: LinkConfig)
    requires
        sendable(payload, config),
    ensures
        incoming(outgoing(payload, config), config) == Ok::<(Seq<bool>, bool), SignalError>(
            (payload, false),
        ),
{
    let body = body_of(payload, config.fec);
    theorem_silent_lead(
        silence(config.lead as nat),
        body,
        config.frame,
        silence(config.trail as nat),
    );
    if config.fec {
        let bytes = pack(payload);
        let words = codewords(bytes);
        lemma_pack_unpack(words);
        theorem_bytes_round_trip(bytes);
        lemma_unpack_pack(payload);
    }
}

/// Inverting a bit of the body of a package without checksum gives the
/// package of the body with that bit inverted.
pub proof fn lemma_flipped_body(
    lead: Seq<bool>,
    body: Seq<bool>,
    frame: FrameConfig,
    trail: Seq<bool>,
    k: int,
)
    requires
        !frame.checksum,
        0 <= k < body.len(),
    ensures
        flipped(lead + encoded(body, frame) + trail, lead.len() + 8 + frame.width.bit_count() + k)
            == lead + encoded(flipped(body, k), frame) + trail,
{
    let w = frame.width.bit_count() as int;
    assert(field_bits((body.len() / 8) as u16, frame.width).len() == w);
    assert(flipped(body, k).len() == body.len());
    assert(flipped(
        lead + encoded(body, frame) + trail,
        lead.len() + 8 + frame.width.bit_count() + k,
    ) =~= lead + encoded(flipped(body, k), frame) + trail);
}

/// Codewords of which one has one bit inverted still stand for the same
/// bytes. A word fails its parity unless the inverted bit is the most
/// significant bit of its byte.
pub proof fn lemma_damaged_words(bytes: Seq<u8>, j: int, m: int)
    requires
        0 <= j < 2 * bytes.len(),
        0 <= m < 8,
    ensures
        ({
            let words = codewords(bytes);
            let received = words.update(j, flipped_byte(words[j], m));
            &&& bytes_of(received) == bytes
            &&& any_error(received, received.len() as int) == (m != 0)
        }),
{
    let words = codewords(bytes);
    let received = words.update(j, flipped_byte(words[j], m));
    let nibble = if j % 2 == 0 {
        bytes[j / 2] / 16
    } else {
        bytes[j / 2] % 16
    };
    assert(words[j] == codeword(nibble));
    theorem_single_error_in_byte(nibble, m as u8);
    assert(nibble_of(received[j]) == nibble);
    assert forall|i: int| 0 <= i < bytes.len() implies bytes_of(received)[i] == bytes[i] by {
        assert(words[2 * i] == codeword(bytes[i] / 16));
        assert(words[2 * i + 1] == codeword(bytes[i] % 16));
        theorem_clean_word(bytes[i] / 16);
        theorem_clean_word(bytes[i] % 16);
        if 2 * i != j {
            assert(received[2 * i] == words[2 * i]);
        }
        if 2 * i + 1 != j {
            assert(received[2 * i + 1] == words[2 * i + 1]);
        }
    }
    assert(bytes_of(received) =~= bytes);
    if m != 0 {
        assert(syndrome(received[j]) != 0);
    } else {
        assert forall|t: int| 0 <= t < received.len() implies syndrome(#[trigger] received[t])
            == 0 by {
            let b = bytes[t / 2];
            theorem_clean_word(b / 16);
            theorem_clean_word(b % 16);
            if t != j {
                assert(received[t] == words[t]);
            }
        }
    }
}

/// Words sent as bits of which one is inverted are opened as the words
/// with that bit of one word inverted.
pub proof fn lemma_damaged_body_opened(words: Seq<u8>, k: int)
    requires
        0 <= k < 8 * words.len(),
        words.len() % 2 == 0,
    ensures
        ({
            let received = words.update(k / 8, flipped_byte(words[k / 8], k % 8));
            opened(flipped(unpack(words), k), true) == Ok::<(Seq<bool>, bool), SignalError>(
                (unpack(bytes_of(received)), any_error(received, received.len() as int)),
            )
        }),
{
    let damaged = flipped(unpack(words), k);
    assert(damaged.len() == 8 * words.len());
    assert(damaged.len() % 16 == 0);
    lemma_pack_flipped(words, k);
}

/// What is sent without a checksum, with one bit of the body inverted on
/// the way, decodes to the body with that bit inverted.
pub proof fn lemma_damaged_signal_decoded(payload: Seq<bool>, config: LinkConfig, k: int)
    requires
        sendable(payload, config),
        !config.frame.checksum,
        0 <= k < body_of(payload, config.fec).len(),
    ensures
        decoded(
            flipped(
                outgoing(payload, config),
                config.lead + 8 + config.frame.width.bit_count() + k,
            ),
            config.frame,
        ) == Some(flipped(body_of(payload, config.fec), k)),
{
    let body = body_of(payload, config.fec);
    let lead = silence(config.lead as nat);
    let trail = silence(config.trail as nat);
    lemma_flipped_body(lead, body, config.frame, trail, k);
    theorem_silent_lead(lead, flipped(body, k), config.frame, trail);
}

/// The Hamming-coded body of a payload, with one bit inverted, is opened
/// into the payload. A correction is reported unless the inverted bit is
/// the most significant bit of a byte, which carries no part of a codeword.
pub proof fn lemma_damaged_body_restored(payload: Seq<bool>, k: int)
    requires
        payload.len() % 8 == 0,
        0 <= k < body_of(payload, true).len(),
    ensures
        opened(flipped(body_of(payload, true), k), true) == Ok::<(Seq<bool>, bool), SignalError>(
            (payload, k % 8 != 0),
        ),
{
    let bytes = pack(payload);
    let words = codewords(bytes);
    assert(words.len() == 2 * bytes.len());
    lemma_damaged_body_opened(words, k);
    lemma_damaged_words(bytes, k / 8, k % 8);
    lemma_unpack_pack(payload);
}

/// With the Hamming code and without a checksum, one inverted bit anywhere
/// in the body of what was sent is repaired: the payload is received as it
/// was sent. A correction is reported unless the inverted bit is the most
/// significant bit of a byte, which carries no part of a codeword.
pub proof fn theorem_single_error_repaired(payload: Seq<bool>, config: LinkConfig, k: int)
    requires
        sendable(payload, config),
        config.fec,
        !config.frame.checksum,
        0 <= k < body_of(payload, true).len(),
    ensures
        incoming(
            flipped(
                outgoing(payload, config),
                config.lead + 8 + config.frame.width.bit_count() + k,
            ),
            config,
        ) == Ok::<(Seq<bool>, bool), SignalError>((payload, k % 8 != 0)),
{
    lemma_damaged_signal_decoded(payload, config, k);
    lemma_damaged_body_restored(payload, k);
}

// ---------------------------------------------------------------------------
// Sending and receiving
// ---------------------------------------------------------------------------

/// Puts `lead` bits of silence in front of `package` and `trail` bits of
/// silence behind it.
pub fn pad_package(package: &mut BitVec, lead: usize, trail: usize)
    requires
        bits(*old(package)).len() + lead + trail <= usize::MAX,
    ensures
        bits(*final(package)) == silence(lead as nat) + bits(*old(package)) + silence(
            trail as nat,
        ),
{
    let ghost start = bits(*package);
    let mut i: usize = 0;
    while i < lead
        invariant
            i <= lead,
            start.len() + lead + trail <= usize::MAX,
            bits(*package) == silence(i as nat) + start,
        decreases lead - i,
    {
        bitvec_insert(package, 0, false);
        proof {
            assert(bits(*package) =~= silence((i + 1) as nat) + start);
        }
        i += 1;
    }
    let mut k: usize = 0;
    while k < trail
        invariant
            k <= trail,
            start.len() + lead + trail <= usize::MAX,
            bits(*package) == silence(lead as nat) + start + silence(k as nat),
        decreases trail - k,
    {
        bitvec_push(package, false);
        proof {
            assert(bits(*package) =~= silence(lead as nat) + start + silence((k + 1) as nat));
        }
        k += 1;
    }
}

/// The bits that enter the package for a payload: the payload itself, or
/// the codewords of its bytes where the Hamming code is on. Fails with
/// `Alignment` when the payload is not made of whole bytes, and with
/// `PayloadTooLarge` when its codewords are more than the size field can
/// count.
pub fn make_body(data: &BitVec, config: &LinkConfig) -> (r: Result<BitVec, SignalError>)
    ensures
        sendable(bits(*data), *config) ==> r.is_ok() && bits(r.unwrap()) == body_of(
            bits(*data),
            config.fec,
        ),
        bits(*data).len() % 8 != 0 ==> r.is_err() && r.unwrap_err() == SignalError::Alignment,
        bits(*data).len() % 8 == 0 && !sendable(bits(*data), *config) ==> r.is_err()
            && r.unwrap_err() == SignalError::PayloadTooLarge,
{
    let n = bitvec_len(data);
    if n % 8 != 0 {
        return Err(SignalError::Alignment);
    }
    let limit = config.frame.width.max_payload();
    if config.fec {
        if n / 8 > limit / 2 {
            return Err(SignalError::PayloadTooLarge);
        }
        let bytes = to_bytes(data).unwrap();
        let words = to_hamming(&bytes);
        Ok(from_bytes(words.as_slice()))
    } else {
        if n / 8 > limit {
            return Err(SignalError::PayloadTooLarge);
        }
        let mut body = crate::bits::bitvec_new();
        crate::bits::bitvec_extend(&mut body, data);
        proof {
            assert(Seq::<bool>::empty() + bits(*data) =~= bits(*data));
        }
        Ok(body)
    }
}

/// The sending side: the bits to hand to the channel for a payload.
///
/// Fails with `Alignment` when the payload is not made of whole bytes, and
/// with `PayloadTooLarge` when the size field cannot count what is to be
/// wrapped.
pub fn prepare_signal(data: &BitVec, config: &LinkConfig) -> (r: Result<BitVec, SignalError>)
    requires
        sendable(bits(*data), *config) ==> outgoing(bits(*data), *config).len() <= usize::MAX,
    ensures
        sendable(bits(*data), *config) ==> r.is_ok() && bits(r.unwrap()) == outgoing(
            bits(*data),
            *config,
        ),
        bits(*data).len() % 8 != 0 ==> r.is_err() && r.unwrap_err() == SignalError::Alignment,
        bits(*data).len() % 8 == 0 && !sendable(bits(*data), *config) ==> r.is_err()
            && r.unwrap_err() == SignalError::PayloadTooLarge,
{
    let body = match make_body(data, config) {
        Ok(body) => body,
        Err(e) => {
            return Err(e);
        },
    };
    let mut package = encode_package(&body, &config.frame).unwrap();
    pad_package(&mut package, config.lead, config.trail);
    Ok(package)
}

/// Undoes what `make_body` did to a payload: the body of a decoded package
/// becomes the payload again. Fails with `DecodeFailure` where the Hamming
/// code is on and the body is not a whole number of word pairs.
pub fn open_body(body: BitVec, config: &LinkConfig) -> (r: Result<Reception, SignalError>)
    ensures
        reception_bits(r) == opened(bits(body), config.fec),
{
    if !config.fec {
        return Ok(Reception { payload: body, corrected: false });
    }
    if bitvec_len(&body) % 16 != 0 {
        return Err(SignalError::DecodeFailure);
    }
    let words = to_bytes(&body).unwrap();
    match from_hamming(&words) {
        Some((bytes, corrected)) => {
            let payload = from_bytes(bytes.as_slice());
            Ok(Reception { payload, corrected })
        },
        None => Err(SignalError::DecodeFailure),
    }
}

/// The receiving side: the payload found in the bits that the channel
/// handed back. Fails with `DecodeFailure` when no offset holds a valid
/// package.
pub fn recover_payload(received: &BitVec, config: &LinkConfig) -> (r: Result<
    Reception,
    SignalError,
>)
    ensures
        reception_bits(r) == incoming(bits(*received), *config),
{
    match decode_package(received, &config.frame) {
        Some(body) => {
            proof {
                lemma_decoded_is_aligned(bits(*received), config.frame);
            }
            open_body(body, config)
        },
        None => Err(SignalError::DecodeFailure),
    }
}

} // verus!
