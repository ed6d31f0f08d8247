//! The visual channel's side of the contract: one frame per bit, white for
//! `true` and black for `false`, and a bit per frame read back from the
//! brightness of a sample of it.
//!
//! Rendering frames and reading a video are the caller's business; this
//! module only fixes what brightness stands for which bit.

use crate::bits::{bits, bitvec_get, bitvec_len, bitvec_new, bitvec_push};
use bit_vec::BitVec;
use vstd::prelude::*;

verus! {

/// Brightness of a frame that carries `true`.
pub const WHITE: u8 = 255;

/// Brightness of a frame that carries `false`.
pub const BLACK: u8 = 0;

/// A sample brighter than this reads as `true`.
pub const THRESHOLD: u8 = 128;

/// The brightness that stands for a bit.
pub open spec fn luma_of(bit: bool) -> u8 {
    if bit {
        WHITE
    } else {
        BLACK
    }
}

/// The bit that a brightness sample reads as.
pub open spec fn bit_of(sample: u8) -> bool {
    sample > THRESHOLD
}

/// The brightness of the frame that carries `bit`.
pub fn frame_luma(bit: bool) -> (r: u8)
    ensures
        r == luma_of(bit),
        bit_of(r) == bit,
{
    if bit {
        WHITE
    } else {
        BLACK
    }
}

/// The bit carried by a frame whose sample has the given brightness.
pub fn get_bit_from_frame(sample: u8) -> (r: bool)
    ensures
        r == bit_of(sample),
{
    sample > THRESHOLD
}

/// The brightness of each frame of a transmission, one frame per bit, in
/// the order of the bits.
pub fn frame_lumas(data: &BitVec) -> (r: Vec<u8>)
    ensures
        r@ == bits(*data).map_values(|bit: bool| luma_of(bit)),
{
    let n = bitvec_len(data);
    let mut lumas: Vec<u8> = Vec::new();
    let mut i: usize = 0;
    while i < n
        invariant
            i <= n,
            n == bits(*data).len(),
            lumas@ == bits(*data).subrange(0, i as int).map_values(|bit: bool| luma_of(bit)),
        decreases n - i,
    {
        let bit = bitvec_get(data, i).unwrap();
        lumas.push(frame_luma(bit));
        proof {
            assert(lumas@ =~= bits(*data).subrange(0, i + 1).map_values(
                |bit: bool| luma_of(bit),
            ));
        }
        i += 1;
    }
    proof {
        assert(bits(*data).subrange(0, n as int) =~= bits(*data));
    }
    lumas
}

/// The bits of a reception, one per frame, from the brightness sample of
/// each frame in order.
pub fn bits_from_samples(samples: &[u8]) -> (r: BitVec)
    ensures
        bits(r) == samples@.map_values(|sample: u8| bit_of(sample)),
{
    let mut data = bitvec_new();
    let mut i: usize = 0;
    while i < samples.len()
        invariant
            i <= samples.len(),
            bits(data) == samples@.subrange(0, i as int).map_values(|sample: u8| bit_of(sample)),
        decreases samples.len() - i,
    {
        bitvec_push(&mut data, get_bit_from_frame(samples[i]));
        proof {
            assert(bits(data) =~= samples@.subrange(0, i + 1).map_values(
                |sample: u8| bit_of(sample),
            ));
        }
        i += 1;
    }
    proof {
        assert(samples@.subrange(0, samples.len() as int) =~= samples@);
    }
    data
}

/// A channel that hands back the brightness it was given hands back the
/// bits that were sent.
pub proof fn theorem_frames_carry_bits(sent: Seq<bool>)
    ensures
        sent.map_values(|bit: bool| luma_of(bit)).map_values(|sample: u8| bit_of(sample)) == sent,
{
    assert(sent.map_values(|bit: bool| luma_of(bit)).map_values(|sample: u8| bit_of(sample))
        =~= sent);
}

} // verus!
