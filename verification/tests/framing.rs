use bit_vec::BitVec;
use video_signal::error::SignalError;
use video_signal::signal::{
    build_package, check_within_bounds, decode_at, decode_package, encode_package, get_preamble,
    matches_at, payload_checksum, read_candidate, read_field, read_two_bytes, scan_package,
    verify_candidate, write_field, Candidate, FieldWidth, FrameConfig, Rejection, PREAMBLE_BYTE,
    PREAMBLE_LEN,
};

fn crc16(bytes: &[u8]) -> u16 {
    crc::Crc::<u16>::new(&crc::CRC_16_IBM_SDLC).checksum(bytes)
}

fn crc8(bytes: &[u8]) -> u8 {
    crc::Crc::<u8>::new(&crc::CRC_8_BLUETOOTH).checksum(bytes)
}

fn surround(lead: &[bool], package: &BitVec, trail: &[bool]) -> BitVec {
    let mut out = BitVec::new();
    out.extend(lead.iter().copied());
    out.extend(package.iter());
    out.extend(trail.iter().copied());
    out
}

fn all_configs() -> Vec<FrameConfig> {
    vec![
        FrameConfig::short(),
        FrameConfig::long(),
        FrameConfig::size_only(FieldWidth::Bits8),
        FrameConfig::size_only(FieldWidth::Bits16),
    ]
}

#[test]
fn the_preamble_is_10101010() {
    assert_eq!(get_preamble(), BitVec::from_bytes(&[0b10101010]));
    assert_eq!(PREAMBLE_BYTE, 0xAA);
    assert_eq!(PREAMBLE_LEN, 8);
    assert_eq!(get_preamble().len(), 8);
}

#[test]
fn configurations() {
    assert_eq!(FrameConfig::short(), FrameConfig { width: FieldWidth::Bits8, checksum: true });
    assert_eq!(FrameConfig::long(), FrameConfig { width: FieldWidth::Bits16, checksum: true });
    assert_eq!(
        FrameConfig::size_only(FieldWidth::Bits16),
        FrameConfig { width: FieldWidth::Bits16, checksum: false }
    );
    assert_eq!(FieldWidth::Bits8.bit_len(), 8);
    assert_eq!(FieldWidth::Bits16.bit_len(), 16);
    assert_eq!(FieldWidth::Bits8.max_payload(), 255);
    assert_eq!(FieldWidth::Bits16.max_payload(), 65535);
    assert_eq!(FrameConfig::short().checksum_len(), 8);
    assert_eq!(FrameConfig::long().checksum_len(), 16);
    assert_eq!(FrameConfig::size_only(FieldWidth::Bits8).checksum_len(), 0);
    assert_eq!(FrameConfig::short().overhead_len(), 24);
    assert_eq!(FrameConfig::long().overhead_len(), 40);
    assert_eq!(FrameConfig::size_only(FieldWidth::Bits8).overhead_len(), 16);
    assert_eq!(FrameConfig::size_only(FieldWidth::Bits16).overhead_len(), 24);
}

#[test]
fn two_byte_payload_in_the_long_profile() {
    let payload = [0b11001110u8, 0b00110001];
    let data = BitVec::from_bytes(&payload);
    let package = encode_package(&data, &FrameConfig::long()).unwrap();
    let crc = crc16(&payload);
    let expected = BitVec::from_bytes(&[
        0b10101010,
        0b00000000,
        0b00000010,
        0b11001110,
        0b00110001,
        (crc >> 8) as u8,
        (crc & 0xff) as u8,
    ]);
    assert_eq!(package, expected);
    assert_eq!(package.len(), 56);
    assert_eq!(package.to_bytes(), vec![0xAA, 0x00, 0x02, 0xCE, 0x31, 0x7F, 0xF7]);
    let bools: Vec<bool> = package.iter().take(24).collect();
    assert_eq!(
        bools,
        vec![
            true, false, true, false, true, false, true, false, false, false, false, false,
            false, false, false, false, false, false, false, false, false, false, true, false
        ]
    );
    assert_eq!(decode_package(&package, &FrameConfig::long()), Some(data));
}

#[test]
fn two_byte_payload_in_the_short_profile() {
    let payload = [0b11001110u8, 0b00110001];
    let data = BitVec::from_bytes(&payload);
    let package = encode_package(&data, &FrameConfig::short()).unwrap();
    let expected =
        BitVec::from_bytes(&[0b10101010, 0b00000010, 0b11001110, 0b00110001, crc8(&payload)]);
    assert_eq!(package, expected);
    assert_eq!(package.to_bytes(), vec![0xAA, 0x02, 0xCE, 0x31, 0x50]);
    assert_eq!(decode_package(&package, &FrameConfig::short()), Some(data));
}

#[test]
fn package_without_checksum() {
    let data = BitVec::from_bytes(&[7, 8, 9]);
    let package = encode_package(&data, &FrameConfig::size_only(FieldWidth::Bits16)).unwrap();
    assert_eq!(package, BitVec::from_bytes(&[0xAA, 0, 3, 7, 8, 9]));
    let short = encode_package(&data, &FrameConfig::size_only(FieldWidth::Bits8)).unwrap();
    assert_eq!(short, BitVec::from_bytes(&[0xAA, 3, 7, 8, 9]));
}

#[test]
fn checksums_of_the_catalogue_check_string() {
    let data = BitVec::from_bytes(b"123456789");
    assert_eq!(payload_checksum(&data, FieldWidth::Bits16), 0x906e);
    assert_eq!(payload_checksum(&data, FieldWidth::Bits8), 0x26);
    let long = encode_package(&data, &FrameConfig::long()).unwrap();
    assert_eq!(long.to_bytes()[12..], [0x90, 0x6e]);
    let short = encode_package(&data, &FrameConfig::short()).unwrap();
    assert_eq!(short.to_bytes()[11..], [0x26]);
}

#[test]
fn encoding_is_deterministic() {
    let data = BitVec::from_bytes(b"again and again");
    for config in all_configs() {
        assert_eq!(encode_package(&data, &config), encode_package(&data, &config));
    }
}

#[test]
fn round_trip_in_every_configuration() {
    let payloads: Vec<Vec<u8>> = vec![
        vec![],
        vec![0],
        vec![0xff],
        vec![0xAA],
        vec![0xAA, 0xAA, 0xAA],
        b"https://github.com/patte".to_vec(),
        (0u8..=254).collect(),
    ];
    for config in all_configs() {
        for payload in payloads.iter() {
            let data = BitVec::from_bytes(payload);
            let package = encode_package(&data, &config).unwrap();
            assert_eq!(package.len(), config.overhead_len() + 8 * payload.len());
            assert_eq!(decode_package(&package, &config), Some(data));
        }
    }
}

#[test]
fn empty_payload_is_a_package() {
    let empty = BitVec::new();
    let package = encode_package(&empty, &FrameConfig::long()).unwrap();
    let crc = crc16(&[]);
    assert_eq!(
        package,
        BitVec::from_bytes(&[0xAA, 0, 0, (crc >> 8) as u8, (crc & 0xff) as u8])
    );
    assert_eq!(package.to_bytes(), vec![0xAA, 0, 0, 0, 0]);
    assert_eq!(decode_package(&package, &FrameConfig::long()), Some(empty));
}

#[test]
fn text_with_three_zero_bits_on_each_side() {
    let text = "https://github.com/patte";
    let data = BitVec::from_bytes(&text.to_string().into_bytes());
    let package = encode_package(&data, &FrameConfig::long()).unwrap();
    let sent = surround(&[false; 3], &package, &[false; 3]);
    assert_eq!(sent.len(), package.len() + 6);
    let decoded = decode_package(&sent, &FrameConfig::long()).unwrap();
    assert_eq!(String::from_utf8(decoded.to_bytes()).unwrap(), text);
}

#[test]
fn thirty_leading_and_eighty_trailing_zero_bits() {
    let data = BitVec::from_bytes(b"Hello World!");
    for config in all_configs() {
        let package = encode_package(&data, &config).unwrap();
        let sent = surround(&[false; 30], &package, &[false; 80]);
        assert_eq!(decode_package(&sent, &config), Some(data.clone()));
    }
}

#[test]
fn any_bits_behind_the_package() {
    let data = BitVec::from_bytes(&[1, 2, 3, 4]);
    let trail = [true, false, true, false, true, false, true, false, true, true, true];
    for config in all_configs() {
        let package = encode_package(&data, &config).unwrap();
        let sent = surround(&[], &package, &trail);
        assert_eq!(decode_package(&sent, &config), Some(data.clone()));
    }
}

#[test]
fn ones_in_front_of_the_package() {
    let data = BitVec::from_bytes(&[1, 2, 3, 4]);
    for config in all_configs() {
        let package = encode_package(&data, &config).unwrap();
        let sent = surround(&[true; 13], &package, &[true; 5]);
        assert_eq!(decode_package(&sent, &config), Some(data.clone()));
    }
}

#[test]
fn a_false_preamble_in_front_is_passed_over() {
    let data = BitVec::from_bytes(&[1, 2, 3]);
    let junk = [true, false, true, false, true, false, true, false];
    for config in [FrameConfig::short(), FrameConfig::long()] {
        let package = encode_package(&data, &config).unwrap();
        let sent = surround(&junk, &package, &[]);
        assert_eq!(decode_package(&sent, &config), Some(data.clone()));
        let shifted = surround(&junk[..6], &package, &[false; 9]);
        assert_eq!(decode_package(&shifted, &config), Some(data.clone()));
    }
}

#[test]
fn a_false_candidate_with_a_wrong_checksum_is_passed_over() {
    let data = BitVec::from_bytes(&[9, 8, 7, 6]);
    let package = encode_package(&data, &FrameConfig::short()).unwrap();
    let bogus = BitVec::from_bytes(&[0xAA, 1, 0x42, crc8(&[0x42]) ^ 1]);
    let lead: Vec<bool> = bogus.iter().collect();
    let sent = surround(&lead, &package, &[]);
    assert_eq!(decode_at(&sent, &FrameConfig::short(), 0), Err(SignalError::ChecksumMismatch));
    assert_eq!(decode_package(&sent, &FrameConfig::short()), Some(data));
}

#[test]
fn the_first_valid_package_wins() {
    let first = BitVec::from_bytes(&[0x42]);
    let second = BitVec::from_bytes(&[9, 8, 7, 6]);
    let config = FrameConfig::short();
    let a = encode_package(&first, &config).unwrap();
    let b = encode_package(&second, &config).unwrap();
    let lead: Vec<bool> = a.iter().collect();
    let sent = surround(&lead, &b, &[]);
    assert_eq!(decode_package(&sent, &config), Some(first));
}

#[test]
fn without_checksum_the_first_preamble_decides() {
    let data = BitVec::from_bytes(&[1, 2, 3]);
    let junk = [true, false, true, false, true, false, true, false];
    let config = FrameConfig::size_only(FieldWidth::Bits8);
    let package = encode_package(&data, &config).unwrap();
    let sent = surround(&junk, &package, &[]);
    assert_eq!(decode_at(&sent, &config, 0), Err(SignalError::OutOfBounds));
    assert_eq!(decode_package(&sent, &config), None);
    let roomy = surround(&junk, &package, &[false; 8 * 170]);
    let taken = decode_package(&roomy, &config).unwrap();
    assert_eq!(taken.len(), 8 * 170);
    assert_eq!(taken.to_bytes()[..4], [3, 1, 2, 3]);
}

#[test]
fn payload_that_holds_the_preamble_pattern() {
    let payload = [0xAAu8, 0x00, 0x01, 0xAA, 0xAA, 0x55, 0xAA];
    let data = BitVec::from_bytes(&payload);
    for config in all_configs() {
        let package = encode_package(&data, &config).unwrap();
        let sent = surround(&[false; 5], &package, &[false; 11]);
        assert_eq!(decode_package(&sent, &config), Some(data.clone()));
    }
}

#[test]
fn a_package_cut_short_by_the_channel_is_found_in_its_payload() {
    let inner = encode_package(&BitVec::from_bytes(&[0x11, 0x22]), &FrameConfig::short()).unwrap();
    let outer = encode_package(&inner, &FrameConfig::short()).unwrap();
    let cut: BitVec = outer.iter().take(outer.len() - 3).collect();
    assert_eq!(
        decode_package(&cut, &FrameConfig::short()),
        Some(BitVec::from_bytes(&[0x11, 0x22]))
    );
}

#[test]
fn one_inverted_bit_in_size_or_payload_is_never_accepted() {
    let payload = b"checksum".to_vec();
    let data = BitVec::from_bytes(&payload);
    for config in [FrameConfig::short(), FrameConfig::long()] {
        let package = encode_package(&data, &config).unwrap();
        let from = 8;
        let to = 8 + config.width.bit_len() + data.len();
        for k in from..to {
            let mut corrupted = package.clone();
            let bit = corrupted.get(k).unwrap();
            corrupted.set(k, !bit);
            let result = decode_package(&corrupted, &config);
            match result {
                None => {}
                Some(found) => {
                    assert!(found.len() < data.len());
                    assert_ne!(found, data);
                }
            }
            assert_eq!(decode_at(&corrupted, &config, 0).is_err(), true);
        }
    }
}

#[test]
fn an_inverted_payload_bit_is_a_checksum_mismatch() {
    let data = BitVec::from_bytes(&[0x10, 0x20, 0x30]);
    let mut package = encode_package(&data, &FrameConfig::long()).unwrap();
    package.set(30, true);
    assert_eq!(decode_at(&package, &FrameConfig::long(), 0), Err(SignalError::ChecksumMismatch));
    assert_eq!(decode_package(&package, &FrameConfig::long()), None);
}

#[test]
fn an_inverted_checksum_bit_is_a_checksum_mismatch() {
    let data = BitVec::from_bytes(&[0x10, 0x20, 0x30]);
    let mut package = encode_package(&data, &FrameConfig::short()).unwrap();
    let last = package.len() - 1;
    let bit = package.get(last).unwrap();
    package.set(last, !bit);
    assert_eq!(decode_at(&package, &FrameConfig::short(), 0), Err(SignalError::ChecksumMismatch));
    assert_eq!(decode_package(&package, &FrameConfig::short()), None);
}

#[test]
fn largest_payload_of_the_short_profile() {
    let payload = vec![0x5a; 255];
    let data = BitVec::from_bytes(&payload);
    for config in [FrameConfig::short(), FrameConfig::size_only(FieldWidth::Bits8)] {
        let package = encode_package(&data, &config).unwrap();
        assert_eq!(package.to_bytes()[1], 255);
        assert_eq!(decode_package(&package, &config), Some(data.clone()));
    }
}

#[test]
fn one_byte_too_many_for_the_short_profile() {
    let data = BitVec::from_bytes(&vec![0x5a; 256]);
    assert_eq!(encode_package(&data, &FrameConfig::short()), Err(SignalError::PayloadTooLarge));
    assert_eq!(
        encode_package(&data, &FrameConfig::size_only(FieldWidth::Bits8)),
        Err(SignalError::PayloadTooLarge)
    );
    assert!(encode_package(&data, &FrameConfig::long()).is_ok());
}

#[test]
fn largest_payload_of_the_long_profile() {
    let payload: Vec<u8> = (0..65535u32).map(|i| (i % 251) as u8).collect();
    let data = BitVec::from_bytes(&payload);
    let package = encode_package(&data, &FrameConfig::long()).unwrap();
    assert_eq!(package.len(), 40 + 8 * 65535);
    assert_eq!(package.to_bytes()[1..3], [0xff, 0xff]);
    assert_eq!(decode_package(&package, &FrameConfig::long()), Some(data));
}

#[test]
fn one_byte_too_many_for_the_long_profile() {
    let data = BitVec::from_bytes(&vec![0u8; 65536]);
    assert_eq!(encode_package(&data, &FrameConfig::long()), Err(SignalError::PayloadTooLarge));
    assert_eq!(
        encode_package(&data, &FrameConfig::size_only(FieldWidth::Bits16)),
        Err(SignalError::PayloadTooLarge)
    );
}

#[test]
fn a_payload_of_partial_bytes_is_refused() {
    let mut data = BitVec::from_bytes(&[0xff]);
    data.push(true);
    for config in all_configs() {
        assert_eq!(encode_package(&data, &config), Err(SignalError::Alignment));
        assert_eq!(build_package(&data, &config, 0), Err(SignalError::Alignment));
    }
}

#[test]
fn nothing_is_found_where_nothing_is() {
    for config in all_configs() {
        assert_eq!(decode_package(&BitVec::new(), &config), None);
        assert_eq!(decode_package(&BitVec::from_elem(100, false), &config), None);
        assert_eq!(decode_package(&BitVec::from_elem(100, true), &config), None);
        assert_eq!(decode_package(&BitVec::from_bytes(&[0xAA]), &config), None);
        assert_eq!(decode_package(&BitVec::from_bytes(&[0x55, 0x55, 0x55]), &config), None);
    }
}

#[test]
fn a_truncated_package_is_not_found() {
    let data = BitVec::from_bytes(&[1, 2, 3, 4, 5]);
    for config in all_configs() {
        let package = encode_package(&data, &config).unwrap();
        let cut: BitVec = package.iter().take(package.len() - 1).collect();
        assert_eq!(decode_package(&cut, &config), None);
        assert_eq!(decode_at(&cut, &config, 0), Err(SignalError::OutOfBounds));
    }
}

#[test]
fn the_profile_must_match() {
    let data = BitVec::from_bytes(&[1, 2, 3, 4, 5]);
    let package = encode_package(&data, &FrameConfig::long()).unwrap();
    assert_ne!(decode_package(&package, &FrameConfig::short()), Some(data));
}

#[test]
fn package_with_a_given_checksum() {
    let data = BitVec::from_bytes(&[0x01]);
    assert_eq!(
        build_package(&data, &FrameConfig::long(), 0xBEEF),
        Ok(BitVec::from_bytes(&[0xAA, 0x00, 0x01, 0x01, 0xBE, 0xEF]))
    );
    assert_eq!(
        build_package(&data, &FrameConfig::short(), 0x7F),
        Ok(BitVec::from_bytes(&[0xAA, 0x01, 0x01, 0x7F]))
    );
    assert_eq!(
        build_package(&data, &FrameConfig::size_only(FieldWidth::Bits8), 0xFFFF),
        Ok(BitVec::from_bytes(&[0xAA, 0x01, 0x01]))
    );
    let big = BitVec::from_bytes(&vec![0u8; 256]);
    assert_eq!(build_package(&big, &FrameConfig::short(), 0), Err(SignalError::PayloadTooLarge));
}

#[test]
fn fields_are_big_endian() {
    assert_eq!(write_field(0x1234, FieldWidth::Bits16), BitVec::from_bytes(&[0x12, 0x34]));
    assert_eq!(write_field(2, FieldWidth::Bits16), BitVec::from_bytes(&[0, 2]));
    assert_eq!(write_field(0xffff, FieldWidth::Bits16), BitVec::from_bytes(&[0xff, 0xff]));
    assert_eq!(write_field(0x80, FieldWidth::Bits8), BitVec::from_bytes(&[0x80]));
    assert_eq!(write_field(0, FieldWidth::Bits8), BitVec::from_bytes(&[0]));
}

#[test]
fn fields_are_read_at_any_offset() {
    let mut data = BitVec::new();
    data.push(true);
    data.push(true);
    data.push(false);
    data.extend(BitVec::from_bytes(&[0x12, 0x34, 0xAB]).iter());
    assert_eq!(read_two_bytes(&data, 3), 0x1234);
    assert_eq!(read_two_bytes(&data, 11), 0x34AB);
    assert_eq!(read_field(&data, 3, FieldWidth::Bits16), 0x1234);
    assert_eq!(read_field(&data, 3, FieldWidth::Bits8), 0x12);
    assert_eq!(read_field(&data, 19, FieldWidth::Bits8), 0xAB);
    assert_eq!(read_field(&data, 0, FieldWidth::Bits8), 0b11000010);
    assert_eq!(read_two_bytes(&data, 0), 0b1100001001000110);
}

#[test]
fn written_fields_read_back() {
    for value in [0u16, 1, 2, 255, 256, 257, 0x8000, 0xfffe, 0xffff] {
        let field = write_field(value, FieldWidth::Bits16);
        assert_eq!(read_field(&field, 0, FieldWidth::Bits16), value);
    }
    for value in 0u16..=255 {
        let field = write_field(value, FieldWidth::Bits8);
        assert_eq!(read_field(&field, 0, FieldWidth::Bits8), value);
    }
}

#[test]
fn bounds_are_checked_without_overflow() {
    let data = BitVec::from_elem(10, false);
    assert!(check_within_bounds(&data, 0, 10));
    assert!(check_within_bounds(&data, 10, 0));
    assert!(check_within_bounds(&data, 4, 6));
    assert!(!check_within_bounds(&data, 4, 7));
    assert!(!check_within_bounds(&data, 11, 0));
    assert!(!check_within_bounds(&data, usize::MAX, 1));
    assert!(!check_within_bounds(&data, 1, usize::MAX));
    assert!(check_within_bounds(&BitVec::new(), 0, 0));
}

#[test]
fn a_pattern_is_matched_where_it_stands() {
    let data = BitVec::from_bytes(&[0b00010101, 0b01000000]);
    let preamble = get_preamble();
    assert!(!matches_at(&data, &preamble, 0));
    assert!(!matches_at(&data, &preamble, 1));
    assert!(matches_at(&data, &preamble, 3));
    assert!(!matches_at(&data, &preamble, 5));
    assert!(!matches_at(&data, &preamble, 9));
    assert!(!matches_at(&data, &preamble, 16));
    assert!(!matches_at(&data, &preamble, usize::MAX));
    assert!(matches_at(&data, &BitVec::new(), 16));
    assert!(!matches_at(&data, &BitVec::new(), 17));
    assert!(matches_at(&data, &data, 0));
}

#[test]
fn a_candidate_is_read_field_by_field() {
    let received = BitVec::from_bytes(&[0x00, 0xAA, 0x00, 0x02, 0xC0, 0xDE, 0x12, 0x34, 0xff]);
    let candidate = read_candidate(&received, &FrameConfig::long(), 8).unwrap();
    assert_eq!(candidate.payload, BitVec::from_bytes(&[0xC0, 0xDE]));
    assert_eq!(candidate.stored, 0x1234);
    let plain = read_candidate(&received, &FrameConfig::size_only(FieldWidth::Bits16), 8).unwrap();
    assert_eq!(plain.payload, BitVec::from_bytes(&[0xC0, 0xDE]));
    assert_eq!(plain.stored, 0);
    let short = read_candidate(&received, &FrameConfig::short(), 16).unwrap();
    assert_eq!(short.payload, BitVec::from_bytes(&[0xC0, 0xDE]));
    assert_eq!(short.stored, 0x12);
    let nowhere = read_candidate(&received, &FrameConfig::long(), 0).unwrap_err();
    assert_eq!(nowhere, SignalError::OutOfBounds);
}

#[test]
fn a_candidate_that_leaves_the_sequence_is_out_of_bounds() {
    let received = BitVec::from_bytes(&[0xAA, 0x00, 0x02, 0xC0, 0xDE, 0x12]);
    let long = FrameConfig::long();
    assert_eq!(read_candidate(&received, &long, 0).unwrap_err(), SignalError::OutOfBounds);
    assert_eq!(read_candidate(&received, &long, 40).unwrap_err(), SignalError::OutOfBounds);
    assert_eq!(read_candidate(&received, &long, 48).unwrap_err(), SignalError::OutOfBounds);
    assert_eq!(read_candidate(&received, &long, 49).unwrap_err(), SignalError::OutOfBounds);
    assert_eq!(
        read_candidate(&received, &long, usize::MAX).unwrap_err(),
        SignalError::OutOfBounds
    );
    let plain = FrameConfig::size_only(FieldWidth::Bits16);
    assert!(read_candidate(&received, &plain, 0).is_ok());
    assert_eq!(read_candidate(&BitVec::new(), &plain, 0).unwrap_err(), SignalError::OutOfBounds);
}

#[test]
fn a_candidate_is_held_against_the_computed_checksum() {
    let payload = BitVec::from_bytes(&[1, 2]);
    let long = FrameConfig::long();
    let ok = verify_candidate(Candidate { payload: payload.clone(), stored: 7 }, &long, 7);
    assert_eq!(ok, Ok(payload.clone()));
    let bad = verify_candidate(Candidate { payload: payload.clone(), stored: 7 }, &long, 8);
    assert_eq!(bad, Err(SignalError::ChecksumMismatch));
    let plain = FrameConfig::size_only(FieldWidth::Bits16);
    let ignored = verify_candidate(Candidate { payload: payload.clone(), stored: 7 }, &plain, 8);
    assert_eq!(ignored, Ok(payload));
}

#[test]
fn decoding_at_an_offset() {
    let data = BitVec::from_bytes(&[0xC0, 0xDE]);
    let package = encode_package(&data, &FrameConfig::long()).unwrap();
    let sent = surround(&[false, true, false], &package, &[true]);
    assert_eq!(decode_at(&sent, &FrameConfig::long(), 3), Ok(data));
    assert!(decode_at(&sent, &FrameConfig::long(), 2).is_err());
    assert_eq!(decode_at(&sent, &FrameConfig::long(), 60), Err(SignalError::OutOfBounds));
}

#[test]
fn a_clean_package_is_found_with_nothing_passed_over() {
    let data = BitVec::from_bytes(&[1, 2, 3]);
    for config in all_configs() {
        let package = encode_package(&data, &config).unwrap();
        let sent = surround(&[false; 4], &package, &[false; 4]);
        let scan = scan_package(&sent, &config);
        assert_eq!(scan.payload, Some(data.clone()));
        assert_eq!(scan.rejected, vec![]);
    }
}

#[test]
fn candidates_passed_over_are_recorded_in_order() {
    let data = BitVec::from_bytes(&[9, 8, 7, 6]);
    let config = FrameConfig::short();
    let package = encode_package(&data, &config).unwrap();
    let bogus = BitVec::from_bytes(&[0xAA, 1, 0x42, crc8(&[0x42]) ^ 1, 0xAA]);
    let lead: Vec<bool> = bogus.iter().collect();
    let sent = surround(&lead, &package, &[]);
    let scan = scan_package(&sent, &config);
    assert_eq!(scan.payload, Some(data));
    assert_eq!(
        scan.rejected,
        vec![
            Rejection { offset: 0, reason: SignalError::ChecksumMismatch },
            Rejection { offset: 32, reason: SignalError::OutOfBounds },
            Rejection { offset: 34, reason: SignalError::OutOfBounds },
            Rejection { offset: 36, reason: SignalError::OutOfBounds },
            Rejection { offset: 38, reason: SignalError::OutOfBounds },
        ]
    );
}

#[test]
fn a_failed_search_records_every_candidate() {
    let received = BitVec::from_bytes(&[0xAA, 0xAA, 0x00, 0x01]);
    let scan = scan_package(&received, &FrameConfig::short());
    assert_eq!(scan.payload, None);
    assert_eq!(
        scan.rejected,
        vec![
            Rejection { offset: 0, reason: SignalError::OutOfBounds },
            Rejection { offset: 2, reason: SignalError::OutOfBounds },
            Rejection { offset: 4, reason: SignalError::OutOfBounds },
            Rejection { offset: 6, reason: SignalError::OutOfBounds },
            Rejection { offset: 8, reason: SignalError::ChecksumMismatch },
        ]
    );
    let long = scan_package(&received, &FrameConfig::long());
    assert_eq!(long.payload, None);
    assert_eq!(long.rejected.len(), 5);
    assert!(long.rejected.iter().all(|r| r.reason == SignalError::OutOfBounds));
    let nothing = scan_package(&BitVec::from_elem(40, false), &FrameConfig::long());
    assert_eq!(nothing.payload, None);
    assert_eq!(nothing.rejected, vec![]);
}

#[test]
fn without_checksum_the_search_stops_at_the_first_candidate() {
    let received = BitVec::from_bytes(&[0xAA, 0xAA, 0x00, 0x00]);
    let config = FrameConfig::size_only(FieldWidth::Bits8);
    let scan = scan_package(&received, &config);
    assert_eq!(scan.payload, None);
    assert_eq!(scan.rejected, vec![Rejection { offset: 0, reason: SignalError::OutOfBounds }]);
}

#[test]
fn the_shortest_package_carries_nothing() {
    let received = BitVec::from_bytes(&[0xAA, 0xAA, 0x00, 0x00]);
    let scan = scan_package(&received, &FrameConfig::short());
    assert_eq!(scan.payload, Some(BitVec::new()));
    assert_eq!(scan.rejected.len(), 4);
    assert_eq!(
        encode_package(&BitVec::new(), &FrameConfig::short()),
        Ok(BitVec::from_bytes(&[0xAA, 0x00, 0x00]))
    );
}
