use ccidkit::{Atr, Command, Response, StatusWord};

#[test]
fn command_round_trips_all_four_short_cases() {
    let fixtures: &[&[u8]] = &[
        &[0x00, 0x84, 0x00, 0x00],
        &[0x00, 0x84, 0x00, 0x00, 0x08],
        &[0x00, 0xA4, 0x04, 0x00, 0x02, 0x3F, 0x00],
        &[0x00, 0xA4, 0x04, 0x00, 0x02, 0x3F, 0x00, 0x00],
    ];
    for fixture in fixtures {
        let parsed = Command::from_bytes(fixture);
        assert!(matches!(parsed, Ok(ref command) if command.to_bytes() == *fixture));
    }
}

#[test]
fn command_round_trips_extended_cases() {
    let cases: &[&[u8]] = &[
        &[0x00, 0xCA, 0x00, 0x00, 0x00, 0x01, 0x00],
        &[0x00, 0xDA, 0x00, 0x00, 0x00, 0x00, 0x02, 0xAA, 0xBB],
        &[
            0x00, 0xDA, 0x00, 0x00, 0x00, 0x00, 0x02, 0xAA, 0xBB, 0x01, 0x00,
        ],
    ];
    for fixture in cases {
        let parsed = Command::from_bytes(fixture);
        assert!(matches!(parsed, Ok(ref command) if command.to_bytes() == *fixture));
    }
}

#[test]
fn command_rejects_every_ambiguous_or_truncated_length_shape() {
    let malformed: &[&[u8]] = &[
        &[],
        &[0, 1, 2],
        &[0, 0xA4, 0, 0, 2, 0xAA],
        &[0, 0xA4, 0, 0, 1, 0xAA, 0, 0],
        &[0, 0xA4, 0, 0, 0, 1],
        &[0, 0xA4, 0, 0, 0, 0, 0, 0xAA],
        &[0, 0xA4, 0, 0, 0, 0, 2, 0xAA],
    ];
    for bytes in malformed {
        assert!(Command::from_bytes(bytes).is_err(), "accepted {bytes:02X?}");
    }
}

#[test]
fn command_builders_hold_all_length_boundaries() {
    let short = Command::new(0, 0xCA, 0, 0)
        .with_expected_len(256)
        .expect("short Le");
    assert_eq!(short.to_bytes(), [0, 0xCA, 0, 0, 0]);

    let extended = Command::new(0, 0xCA, 0, 0)
        .with_expected_len(257)
        .expect("extended Le");
    assert_eq!(extended.to_bytes(), [0, 0xCA, 0, 0, 0, 1, 1]);
    assert!(Command::new(0, 0, 0, 0).with_expected_len(0).is_err());
    assert!(Command::new(0, 0, 0, 0).with_expected_len(65_537).is_err());
    assert!(Command::new(0, 0, 0, 0).with_data(vec![0; 65_536]).is_err());
}

#[test]
fn explicit_extended_wire_form_is_preserved() {
    let bytes = [0, 0xCA, 0, 0, 0, 1, 0];
    let command = Command::from_bytes(&bytes).expect("extended Le=256");
    assert_eq!(command.expected_len(), Some(256));
    assert_eq!(command.to_bytes(), bytes);

    let short_case4 = Command::from_bytes(&[0, 0xDA, 0, 0, 1, 0xAA, 0]).expect("short case 4");
    assert_eq!(short_case4.expected_len(), Some(256));
}

#[test]
fn status_is_data_until_the_caller_requires_success() {
    let response = Response::new(Vec::new(), StatusWord::from_u16(0x6A82));
    assert_eq!(response.status().meaning(), "file or application not found");
    assert!(response.require_success().is_err());
}

#[test]
fn atr_parses_historical_bytes_and_checksum() {
    let simple = Atr::parse(&[0x3B, 0x02, 0x11, 0x22]);
    assert!(matches!(simple, Ok(ref atr) if atr.historical_bytes() == [0x11, 0x22]));

    let with_t1 = Atr::parse(&[0x3B, 0x80, 0x01, 0x81]);
    assert!(matches!(with_t1, Ok(ref atr) if atr.protocols().into_iter().eq([1])));
}

#[test]
fn atr_rejects_bad_convention_truncation_checksum_and_trailing_data() {
    for malformed in [
        Vec::new(),
        vec![0x00, 0x00],
        vec![0x3B, 0x10],
        vec![0x3B, 0x01],
        vec![0x3B, 0x00, 0xAA],
        vec![0x3B, 0x80, 0x01, 0x80],
    ] {
        assert!(Atr::parse(&malformed).is_err(), "accepted {malformed:02X?}");
    }
}

#[test]
fn atr_follows_more_than_one_interface_descriptor_group() {
    let atr = Atr::parse(&[0x3B, 0x80, 0x81, 0x01, 0x00]).expect("two TD groups");
    assert!(atr.protocols().into_iter().eq([1]));
    assert_eq!(atr.as_bytes(), [0x3B, 0x80, 0x81, 0x01, 0x00]);
}
