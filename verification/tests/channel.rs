use bit_vec::BitVec;
use video_signal::message::Message;
use video_signal::video::{
    bits_from_samples, frame_luma, frame_lumas, get_bit_from_frame, BLACK, THRESHOLD, WHITE,
};

#[test]
fn white_stands_for_one_and_black_for_zero() {
    assert_eq!(frame_luma(true), 255);
    assert_eq!(frame_luma(false), 0);
    assert_eq!(WHITE, 255);
    assert_eq!(BLACK, 0);
    assert_eq!(THRESHOLD, 128);
}

#[test]
fn a_sample_above_the_threshold_is_a_one() {
    assert!(!get_bit_from_frame(0));
    assert!(!get_bit_from_frame(127));
    assert!(!get_bit_from_frame(128));
    assert!(get_bit_from_frame(129));
    assert!(get_bit_from_frame(255));
}

#[test]
fn one_frame_for_each_bit() {
    let data = BitVec::from_bytes(&[0b10110000]);
    assert_eq!(frame_lumas(&data), vec![255, 0, 255, 255, 0, 0, 0, 0]);
    assert_eq!(frame_lumas(&BitVec::new()), Vec::<u8>::new());
}

#[test]
fn samples_read_back_as_bits() {
    let data = bits_from_samples(&[200, 10, 129, 128, 0, 255]);
    let bools: Vec<bool> = data.iter().collect();
    assert_eq!(bools, vec![true, false, true, false, false, true]);
    assert_eq!(bits_from_samples(&[]).len(), 0);
}

#[test]
fn frames_carry_the_bits_sent() {
    let data = BitVec::from_bytes(&[0x00, 0xff, 0xa5, 0x3c]);
    assert_eq!(bits_from_samples(&frame_lumas(&data)), data);
}

#[test]
fn dimmed_frames_still_carry_the_bits_sent() {
    let data = BitVec::from_bytes(&[0xa5, 0x3c]);
    let dimmed: Vec<u8> = frame_lumas(&data)
        .iter()
        .map(|l| if *l > 128 { 180 } else { 60 })
        .collect();
    assert_eq!(bits_from_samples(&dimmed), data);
}

#[test]
fn a_message_keeps_its_parts() {
    let m = Message::new(1, String::from("Hello World!"));
    assert_eq!(m.id, 1);
    assert_eq!(m.content, "Hello World!");
    assert_eq!(m, Message { id: 1, content: String::from("Hello World!") });
    assert_ne!(m, Message::new(2, String::from("Hello World!")));
    assert_ne!(m, Message::new(1, String::from("Hello")));
    assert_eq!(m.clone(), m);
}
