use bit_vec::BitVec;
use video_signal::bits::{from_bytes, slice, to_bytes};
use video_signal::error::SignalError;

fn bools(v: &BitVec) -> Vec<bool> {
    v.iter().collect()
}

#[test]
fn from_bytes_puts_the_most_significant_bit_first() {
    let v = from_bytes(&[0b10100000, 0b00010010]);
    assert_eq!(
        bools(&v),
        vec![
            true, false, true, false, false, false, false, false, false, false, false, true,
            false, false, true, false
        ]
    );
}

#[test]
fn from_bytes_of_nothing_is_empty() {
    let v = from_bytes(&[]);
    assert_eq!(v.len(), 0);
}

#[test]
fn to_bytes_gives_the_bytes_back() {
    let bytes = vec![0u8, 1, 2, 127, 128, 254, 255, 0b11001110, 0b00110001];
    let v = from_bytes(&bytes);
    assert_eq!(to_bytes(&v), Ok(bytes));
}

#[test]
fn to_bytes_of_single_bits() {
    let mut v = BitVec::new();
    for bit in [false, true, true, false, true, false, false, true] {
        v.push(bit);
    }
    assert_eq!(to_bytes(&v), Ok(vec![0b01101001]));
}

#[test]
fn to_bytes_refuses_a_partial_byte() {
    let mut v = from_bytes(&[0xff]);
    v.push(true);
    assert_eq!(to_bytes(&v), Err(SignalError::Alignment));
    let mut w = BitVec::new();
    w.push(false);
    assert_eq!(to_bytes(&w), Err(SignalError::Alignment));
}

#[test]
fn to_bytes_of_the_empty_sequence() {
    assert_eq!(to_bytes(&BitVec::new()), Ok(vec![]));
}

#[test]
fn concat_keeps_the_order() {
    let a = from_bytes(&[0b11110000]);
    let mut b = BitVec::new();
    b.push(true);
    b.push(false);
    b.push(true);
    let joined = video_signal::bits::concat(&a, &b);
    assert_eq!(joined.len(), 11);
    assert_eq!(
        bools(&joined),
        vec![true, true, true, true, false, false, false, false, true, false, true]
    );
    let other = video_signal::bits::concat(&b, &a);
    assert_eq!(
        bools(&other),
        vec![true, false, true, true, true, true, true, false, false, false, false]
    );
}

#[test]
fn concat_with_the_empty_sequence() {
    let a = from_bytes(&[0x5a]);
    let e = BitVec::new();
    assert_eq!(video_signal::bits::concat(&a, &e), a);
    assert_eq!(video_signal::bits::concat(&e, &a), a);
    assert_eq!(video_signal::bits::concat(&e, &e).len(), 0);
}

#[test]
fn slice_takes_the_bits_asked_for() {
    let v = from_bytes(&[0b10110100, 0b01100001]);
    let part = slice(&v, 2, 7).unwrap();
    assert_eq!(bools(&part), vec![true, true, false, true, false, false, false]);
    let whole = slice(&v, 0, 16).unwrap();
    assert_eq!(whole, v);
    let second = slice(&v, 8, 8).unwrap();
    assert_eq!(second, from_bytes(&[0b01100001]));
}

#[test]
fn slice_of_no_bits() {
    let v = from_bytes(&[0xff]);
    assert_eq!(slice(&v, 0, 0).unwrap().len(), 0);
    assert_eq!(slice(&v, 8, 0).unwrap().len(), 0);
}

#[test]
fn slice_past_the_end_is_out_of_bounds() {
    let v = from_bytes(&[0xff]);
    assert_eq!(slice(&v, 0, 9).unwrap_err(), SignalError::OutOfBounds);
    assert_eq!(slice(&v, 8, 1).unwrap_err(), SignalError::OutOfBounds);
    assert_eq!(slice(&v, 9, 0).unwrap_err(), SignalError::OutOfBounds);
    assert_eq!(slice(&v, 3, 6).unwrap_err(), SignalError::OutOfBounds);
}

#[test]
fn slice_does_not_overflow_on_huge_arguments() {
    let v = from_bytes(&[0xff]);
    assert_eq!(slice(&v, usize::MAX, 1).unwrap_err(), SignalError::OutOfBounds);
    assert_eq!(slice(&v, 1, usize::MAX).unwrap_err(), SignalError::OutOfBounds);
    assert_eq!(slice(&v, usize::MAX, usize::MAX).unwrap_err(), SignalError::OutOfBounds);
}

#[test]
fn every_error_has_a_description() {
    let all = [
        SignalError::Alignment,
        SignalError::PayloadTooLarge,
        SignalError::OutOfBounds,
        SignalError::ChecksumMismatch,
        SignalError::DecodeFailure,
    ];
    for (i, e) in all.iter().enumerate() {
        assert!(!e.describe().is_empty());
        for (j, f) in all.iter().enumerate() {
            assert_eq!(i == j, e.describe() == f.describe());
        }
    }
}
