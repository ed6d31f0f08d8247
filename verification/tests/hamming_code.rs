use video_signal::hamming::{
    from_hamming, hamming_decode, hamming_decode_byte, hamming_encode, to_hamming,
};

#[test]
fn codewords_of_chosen_nibbles() {
    assert_eq!(hamming_encode(0b0000), 0b0000000);
    assert_eq!(hamming_encode(0b0001), 0b1101001);
    assert_eq!(hamming_encode(0b1011), 0b0110011);
    assert_eq!(hamming_encode(0b1000), 0b1110000);
    assert_eq!(hamming_encode(0b0100), 0b1001100);
    assert_eq!(hamming_encode(0b0010), 0b0101010);
    assert_eq!(hamming_encode(0b1111), 0b1111111);
}

#[test]
fn codeword_ignores_the_high_nibble() {
    for d in 0u8..16 {
        assert_eq!(hamming_encode(0xF0 | d), hamming_encode(d));
        assert_eq!(hamming_encode(0x50 | d), hamming_encode(d));
        assert!(hamming_encode(d) < 128);
    }
}

#[test]
fn clean_words_decode_silently() {
    for d in 0u8..16 {
        assert_eq!(hamming_decode(hamming_encode(d)), (d, false));
    }
}

#[test]
fn any_single_inverted_bit_is_corrected() {
    for d in 0u8..16 {
        for k in 0..7 {
            let received = hamming_encode(d) ^ (1 << k);
            assert_eq!(hamming_decode(received), (d, true));
        }
    }
}

#[test]
fn decode_ignores_bit_seven() {
    for w in 0u8..128 {
        assert_eq!(hamming_decode(w | 0x80), hamming_decode(w));
    }
}

#[test]
fn decode_always_gives_a_nibble() {
    for w in 0u8..=255 {
        assert!(hamming_decode(w).0 < 16);
    }
}

#[test]
fn two_inverted_bits_give_a_wrong_nibble() {
    let received = hamming_encode(0) ^ 0b0000011;
    assert_eq!(hamming_decode(received), (3, true));
}

#[test]
fn bytes_become_two_words_high_nibble_first() {
    let words = to_hamming(&vec![0xAB, 0x01]);
    assert_eq!(
        words,
        vec![hamming_encode(0xA), hamming_encode(0xB), hamming_encode(0x0), hamming_encode(0x1)]
    );
    assert_eq!(words[3], 0b1101001);
    assert_eq!(to_hamming(&vec![]), Vec::<u8>::new());
}

#[test]
fn words_decode_to_the_bytes() {
    let bytes: Vec<u8> = (0u8..=255).collect();
    let words = to_hamming(&bytes);
    assert_eq!(words.len(), 512);
    assert_eq!(from_hamming(&words), Some((bytes, false)));
}

#[test]
fn a_corrected_word_is_reported() {
    let bytes = vec![0x12, 0x34, 0x56];
    let mut words = to_hamming(&bytes);
    words[3] ^= 0b0010000;
    assert_eq!(from_hamming(&words), Some((bytes.clone(), true)));
    words[0] ^= 0b1000000;
    words[5] ^= 0b0000001;
    assert_eq!(from_hamming(&words), Some((bytes, true)));
}

#[test]
fn an_odd_number_of_words_is_refused() {
    assert_eq!(from_hamming(&vec![0]), None);
    assert_eq!(from_hamming(&vec![0, 0, 0]), None);
    assert_eq!(from_hamming(&vec![]), Some((vec![], false)));
}

#[test]
fn a_pair_of_words_is_a_byte() {
    assert_eq!(hamming_decode_byte(hamming_encode(0xC), hamming_encode(0x5)), (0xC5, false));
    assert_eq!(
        hamming_decode_byte(hamming_encode(0xC) ^ 0b0000100, hamming_encode(0x5)),
        (0xC5, true)
    );
    assert_eq!(
        hamming_decode_byte(hamming_encode(0xC), hamming_encode(0x5) ^ 0b0100000),
        (0xC5, true)
    );
    assert_eq!(hamming_decode_byte(0x7F, 0x7F), (0xFF, false));
}
