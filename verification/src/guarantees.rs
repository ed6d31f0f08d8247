//! What the package format guarantees, proved over the definitions of the
//! `signal` module: a package decodes to the payload it was made from, also
//! with bits in front of it and behind it, and a package with one inverted
//! bit decodes to nothing or to something shorter, as far as the checksum
//! tells the two payloads apart.

use crate::bits::{
    byte_from, flipped, lemma_bits_of_sum, lemma_pack_unpack, pack, unpack, window_bit,
};
use crate::error::SignalError;
use crate::signal::{
    checksum_of, decoded, decoded_at, decides, encodable, encoded, field_bits, field_value,
    first_deciding, in_bounds, lemma_decoded_at_first, lemma_field_round_trip, package_with,
    payload_at, payload_end, payload_start, preamble, preamble_at, stored_at, FieldWidth,
    FrameConfig,
};
use vstd::prelude::*;

verus! {

/// Where the parts of a package stand in a sequence that holds it behind
/// `lead` and in front of `trail`.
pub proof fn lemma_package_layout(
    lead: Seq<bool>,
    payload: Seq<bool>,
    config: FrameConfig,
    checksum: u16,
    trail: Seq<bool>,
)
    ensures
        ({
            let s = lead + package_with(payload, config, checksum) + trail;
            let at = lead.len() as int;
            let w = config.width.bit_count() as int;
            let n = payload.len() as int;
            &&& s.len() == at + 8 + w + n + config.checksum_bits() + trail.len()
            &&& s.subrange(0, at) == lead
            &&& s.subrange(at, at + 8) == preamble()
            &&& s.subrange(at + 8, at + 8 + w) == field_bits((n / 8) as u16, config.width)
            &&& s.subrange(at + 8 + w, at + 8 + w + n) == payload
            &&& config.checksum ==> s.subrange(at + 8 + w + n, at + 8 + w + n + w) == field_bits(
                checksum,
                config.width,
            )
        }),
{
    let s = lead + package_with(payload, config, checksum) + trail;
    let at = lead.len() as int;
    let w = config.width.bit_count() as int;
    let n = payload.len() as int;
    assert(field_bits((n / 8) as u16, config.width).len() == w);
    assert(field_bits(checksum, config.width).len() == w);
    assert(s.subrange(0, at) =~= lead);
    assert(s.subrange(at, at + 8) =~= preamble());
    assert(s.subrange(at + 8, at + 8 + w) =~= field_bits((n / 8) as u16, config.width));
    assert(s.subrange(at + 8 + w, at + 8 + w + n) =~= payload);
    if config.checksum {
        assert(s.subrange(at + 8 + w + n, at + 8 + w + n + w) =~= field_bits(
            checksum,
            config.width,
        ));
    }
}

/// A package is found where it stands: at the offset behind `lead` the
/// preamble matches and the package read there is the payload, whatever
/// surrounds it.
pub proof fn lemma_package_found(
    lead: Seq<bool>,
    payload: Seq<bool>,
    config: FrameConfig,
    trail: Seq<bool>,
)
    requires
        encodable(payload, config),
    ensures
        preamble_at(lead + encoded(payload, config) + trail, lead.len() as int),
        decoded_at(lead + encoded(payload, config) + trail, config, lead.len() as int) == Ok::<
            Seq<bool>,
            SignalError,
        >(payload),
        decides(lead + encoded(payload, config) + trail, config, lead.len() as int),
{
    let checksum = checksum_of(config.width, pack(payload));
    let s = lead + encoded(payload, config) + trail;
    let at = lead.len() as int;
    let w = config.width.bit_count() as int;
    let n = payload.len() as int;
    lemma_package_layout(lead, payload, config, checksum, trail);
    lemma_field_round_trip(s, at + 8, (n / 8) as u16, config.width);
    assert(payload_end(s, config, at) == at + 8 + w + n);
    if config.checksum {
        lemma_field_round_trip(s, at + 8 + w + n, checksum, config.width);
    }
}

/// Round trip: a package decodes to the payload it was made from.
pub proof fn theorem_round_trip(payload: Seq<bool>, config: FrameConfig)
    requires
        encodable(payload, config),
    ensures
        decoded(encoded(payload, config), config) == Some(payload),
{
    let empty = Seq::<bool>::empty();
    lemma_package_found(empty, payload, config, empty);
    assert(empty + encoded(payload, config) + empty =~= encoded(payload, config));
    lemma_decoded_at_first(encoded(payload, config), config, 0);
}

/// Round trip, in bytes: the package of the bits of at most as many bytes
/// as the size field can count decodes to those bits, and they pack into
/// the bytes again.
pub proof fn theorem_round_trip_bytes(bytes: Seq<u8>, config: FrameConfig)
    requires
        bytes.len() <= config.width.max_value(),
    ensures
        encodable(unpack(bytes), config),
        decoded(encoded(unpack(bytes), config), config) == Some(unpack(bytes)),
        pack(unpack(bytes)) == bytes,
{
    lemma_pack_unpack(bytes);
    theorem_round_trip(unpack(bytes), config);
}

/// The largest payload that the size field can count is wrapped and found
/// again.
pub proof fn theorem_largest_payload(payload: Seq<bool>, config: FrameConfig)
    requires
        payload.len() == 8 * config.width.max_value(),
    ensures
        encodable(payload, config),
        decoded(encoded(payload, config), config) == Some(payload),
{
    theorem_round_trip(payload, config);
}

/// One byte more than the size field can count cannot be wrapped.
pub proof fn theorem_one_byte_too_many(payload: Seq<bool>, config: FrameConfig)
    requires
        payload.len() == 8 * (config.width.max_value() + 1),
    ensures
        !encodable(payload, config),
{
}

/// Bits around a package do not change what it decodes to, as long as the
/// search does not end inside the leading bits: there no offset may hold the
/// preamble followed, where packages carry a checksum, by a package that is
/// in bounds and passes it.
pub proof fn theorem_surrounded_package(
    lead: Seq<bool>,
    payload: Seq<bool>,
    config: FrameConfig,
    trail: Seq<bool>,
)
    requires
        encodable(payload, config),
        forall|j: int|
            0 <= j < lead.len() ==> !decides(lead + encoded(payload, config) + trail, config, j),
    ensures
        decoded(lead + encoded(payload, config) + trail, config) == Some(payload),
{
    lemma_package_found(lead, payload, config, trail);
    lemma_decoded_at_first(lead + encoded(payload, config) + trail, config, lead.len() as int);
}

/// Bits behind a package never change what it decodes to.
pub proof fn theorem_trailing_bits(payload: Seq<bool>, config: FrameConfig, trail: Seq<bool>)
    requires
        encodable(payload, config),
    ensures
        decoded(encoded(payload, config) + trail, config) == Some(payload),
{
    let empty = Seq::<bool>::empty();
    assert(empty + encoded(payload, config) + trail =~= encoded(payload, config) + trail);
    theorem_surrounded_package(empty, payload, config, trail);
}

/// Leading bits that are all `false`, in any number, and any bits behind the
/// package do not change what it decodes to: the preamble starts with
/// `true`, so it cannot start inside such a lead.
pub proof fn theorem_silent_lead(
    lead: Seq<bool>,
    payload: Seq<bool>,
    config: FrameConfig,
    trail: Seq<bool>,
)
    requires
        encodable(payload, config),
        forall|j: int| 0 <= j < lead.len() ==> !lead[j],
    ensures
        decoded(lead + encoded(payload, config) + trail, config) == Some(payload),
{
    let s = lead + encoded(payload, config) + trail;
    assert forall|j: int| 0 <= j < lead.len() implies !decides(s, config, j) by {
        if preamble_at(s, j) {
            assert(s.subrange(j, j + 8)[0] == preamble()[0]);
            assert(s[j] == lead[j]);
        }
    }
    theorem_surrounded_package(lead, payload, config, trail);
}

/// Whatever a checksum-bearing configuration decodes, it read at an offset
/// that holds the preamble and a package in bounds, and the checksum field
/// there equals the checksum of the payload returned.
pub proof fn theorem_result_passed_checksum(s: Seq<bool>, config: FrameConfig, result: Seq<bool>)
    requires
        config.checksum,
        decoded(s, config) == Some(result),
    ensures
        exists|i: int|
            first_deciding(s, config, i) && in_bounds(s, config, i) && result == payload_at(
                s,
                config,
                i,
            ) && stored_at(s, config, i) == checksum_of(config.width, pack(result)),
{
    let i = choose|i: int| first_deciding(s, config, i);
    assert(first_deciding(s, config, i));
    assert(decoded_at(s, config, i) == Ok::<Seq<bool>, SignalError>(result));
}

/// In a sequence as long as a package for `n` payload bits, no result is
/// longer than `n` bits, and a result of `n` bits was read at offset 0.
pub proof fn lemma_full_length_result(s: Seq<bool>, config: FrameConfig, n: nat, result: Seq<bool>)
    requires
        s.len() == config.overhead() + n,
        decoded(s, config) == Some(result),
    ensures
        result.len() <= n,
        result.len() == n ==> preamble_at(s, 0) && decoded_at(s, config, 0) == Ok::<
            Seq<bool>,
            SignalError,
        >(result),
{
    let i = choose|i: int| first_deciding(s, config, i);
    assert(first_deciding(s, config, i));
    assert(decoded_at(s, config, i) == Ok::<Seq<bool>, SignalError>(result));
    assert(result.len() == payload_end(s, config, i) - payload_start(config, i));
}

/// One inverted payload bit: where the checksum of the corrupted payload
/// differs from that of the payload sent, decoding never returns the corrupted
/// payload. It returns nothing, or a shorter payload read at a later offset
/// that passed its own checksum.
pub proof fn theorem_flipped_payload_bit(payload: Seq<bool>, config: FrameConfig, k: int)
    requires
        config.checksum,
        encodable(payload, config),
        0 <= k < payload.len(),
        checksum_of(config.width, pack(flipped(payload, k))) != checksum_of(
            config.width,
            pack(payload),
        ),
    ensures
        decoded(
            flipped(encoded(payload, config), 8 + config.width.bit_count() + k),
            config,
        ) != Some(flipped(payload, k)),
        match decoded(flipped(encoded(payload, config), 8 + config.width.bit_count() + k), config) {
            Some(result) => result.len() < payload.len(),
            None => true,
        },
{
    let w = config.width.bit_count() as int;
    let n = payload.len() as int;
    let intact = checksum_of(config.width, pack(payload));
    let s = flipped(encoded(payload, config), 8 + w + k);
    let empty = Seq::<bool>::empty();
    let bad = flipped(payload, k);
    lemma_package_layout(empty, payload, config, intact, empty);
    assert(empty + encoded(payload, config) + empty =~= encoded(payload, config));
    assert(s =~= empty + package_with(bad, config, intact) + empty);
    lemma_package_layout(empty, bad, config, intact, empty);
    lemma_field_round_trip(s, 8, (n / 8) as u16, config.width);
    assert(payload_end(s, config, 0) == 8 + w + n);
    lemma_field_round_trip(s, 8 + w + n, intact, config.width);
    assert(decoded_at(s, config, 0) == Err::<Seq<bool>, SignalError>(
        SignalError::ChecksumMismatch,
    ));
    if decoded(s, config) is Some {
        lemma_full_length_result(s, config, n as nat, decoded(s, config).unwrap());
    }
}

/// A field's value settles each of its bits.
pub proof fn lemma_field_value_settles_bits(
    s: Seq<bool>,
    at: int,
    t: Seq<bool>,
    bt: int,
    width: FieldWidth,
    k: int,
)
    requires
        field_value(s, at, width) == field_value(t, bt, width),
        0 <= k < width.bit_count(),
    ensures
        window_bit(s, at, k) == window_bit(t, bt, k),
{
    match width {
        FieldWidth::Bits8 => {
            lemma_bits_of_sum(s, at, k);
            lemma_bits_of_sum(t, bt, k);
        },
        FieldWidth::Bits16 => {
            assert(byte_from(s, at) == byte_from(t, bt));
            assert(byte_from(s, at + 8) == byte_from(t, bt + 8));
            if k < 8 {
                lemma_bits_of_sum(s, at, k);
                lemma_bits_of_sum(t, bt, k);
            } else {
                lemma_bits_of_sum(s, at + 8, k - 8);
                lemma_bits_of_sum(t, bt + 8, k - 8);
            }
        },
    }
}

/// One inverted bit of the size field: decoding never returns a payload as
/// long as the one sent. It returns nothing, or a shorter payload that
/// passed its own checksum.
pub proof fn theorem_flipped_size_bit(payload: Seq<bool>, config: FrameConfig, k: int)
    requires
        config.checksum,
        encodable(payload, config),
        0 <= k < config.width.bit_count(),
    ensures
        match decoded(flipped(encoded(payload, config), 8 + k), config) {
            Some(result) => result.len() < payload.len(),
            None => true,
        },
{
    let w = config.width.bit_count() as int;
    let n = payload.len() as int;
    let intact = checksum_of(config.width, pack(payload));
    let e = encoded(payload, config);
    let s = flipped(e, 8 + k);
    let empty = Seq::<bool>::empty();
    lemma_package_layout(empty, payload, config, intact, empty);
    assert(empty + e + empty =~= e);
    lemma_field_round_trip(e, 8, (n / 8) as u16, config.width);
    if decoded(s, config) is Some {
        let result = decoded(s, config).unwrap();
        lemma_full_length_result(s, config, n as nat, result);
        if result.len() == n {
            assert(in_bounds(s, config, 0));
            assert(result.len() == payload_end(s, config, 0) - payload_start(config, 0));
            assert(field_value(s, 8, config.width) == n / 8);
            lemma_field_value_settles_bits(s, 8, e, 8, config.width, k);
            assert(window_bit(s, 8, k) == s[8 + k]);
            assert(window_bit(e, 8, k) == e[8 + k]);
        }
    }
}

} // verus!
