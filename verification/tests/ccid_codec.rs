use ccidkit::ccid::{
    get_parameters, parse_class_descriptor, power_off, power_on, transfer_block, CommandStatus,
    DescriptorExchange, DeviceMessage, IccStatus, TransportParameters, RDR_TO_PC_DATA_BLOCK,
    RDR_TO_PC_PARAMETERS, RDR_TO_PC_SLOT_STATUS,
};
use ccidkit::ErrorKind;

fn parameter_message(protocol: u8, payload: &[u8]) -> DeviceMessage {
    let length = u32::try_from(payload.len()).expect("test payload length");
    let mut bytes = Vec::with_capacity(10_usize.saturating_add(payload.len()));
    bytes.push(RDR_TO_PC_PARAMETERS);
    bytes.extend_from_slice(&length.to_le_bytes());
    bytes.extend_from_slice(&[0, 1, 0, 0, protocol]);
    bytes.extend_from_slice(payload);
    DeviceMessage::decode(&bytes).expect("CCID parameters envelope")
}

#[test]
fn transfer_block_has_canonical_little_endian_header() {
    let encoded = transfer_block(2, 7, &[0x00, 0x84, 0x00, 0x00]).expect("encode");
    assert_eq!(encoded, [0x6F, 4, 0, 0, 0, 2, 7, 0, 0, 0, 0, 0x84, 0, 0]);
    assert_eq!(power_on(2, 7), [0x62, 0, 0, 0, 0, 2, 7, 0, 0, 0]);
    assert_eq!(power_off(2, 7), [0x63, 0, 0, 0, 0, 2, 7, 0, 0, 0]);
    assert_eq!(get_parameters(2, 7), [0x6C, 0, 0, 0, 0, 2, 7, 0, 0, 0]);
}

#[test]
fn protocol_parameters_preserve_t0_and_t1_negotiation() {
    let t0 = parameter_message(0, &[0x11, 0, 0, 0, 0]);
    assert_eq!(
        t0.transport_parameters().expect("parse T=0"),
        TransportParameters::T0
    );

    let t1 = |checksum| parameter_message(1, &[0x11, checksum, 0, 0x4D, 0, 0x40, 0]);
    assert_eq!(
        t1(0x11).transport_parameters().expect("parse T=1 CRC"),
        TransportParameters::T1 {
            ifsc: 0x40,
            uses_crc: true,
        }
    );
    assert_eq!(
        t1(0x10).transport_parameters().expect("parse T=1 LRC"),
        TransportParameters::T1 {
            ifsc: 0x40,
            uses_crc: false,
        }
    );
}

#[test]
fn protocol_parameters_distinguish_malformed_and_unknown_protocols() {
    let malformed: [(u8, &[u8]); 3] = [
        (0, &[]),
        (1, &[0x11, 0, 0, 0, 0, 0, 0]),
        (1, &[0x11, 0, 0, 0, 0, 32, 1]),
    ];
    for (protocol, payload) in malformed {
        assert_eq!(
            parameter_message(protocol, payload)
                .transport_parameters()
                .expect_err("known protocol must reject malformed parameters")
                .kind(),
            ErrorKind::Protocol
        );
    }
    assert_eq!(
        parameter_message(2, &[])
            .transport_parameters()
            .expect_err("unknown protocol")
            .kind(),
        ErrorKind::NotSupported
    );
}

#[test]
fn device_message_rejects_length_mismatch_and_reserved_status() {
    assert!(DeviceMessage::decode(&[0x80, 1, 0, 0, 0, 0, 1, 0, 0, 0]).is_err());
    assert!(DeviceMessage::decode(&[0x80, 0, 0, 0, 0, 0, 1, 3, 0, 0]).is_err());
}

#[test]
fn device_message_preserves_status_and_payload() {
    let decoded =
        DeviceMessage::decode(&[RDR_TO_PC_DATA_BLOCK, 2, 0, 0, 0, 0, 9, 0, 0, 0, 0x90, 0x00])
            .expect("decode");
    assert_eq!(decoded.icc_status, IccStatus::Active);
    assert_eq!(decoded.command_status, CommandStatus::Complete);
    assert_eq!(&*decoded.payload, [0x90, 0]);
}

#[test]
fn class_descriptor_extracts_portable_facts() {
    let mut descriptor = [0_u8; 54];
    descriptor[0] = 54;
    descriptor[1] = 0x21;
    descriptor[6..10].copy_from_slice(&3_u32.to_le_bytes());
    descriptor[40..44].copy_from_slice(&0x0004_0000_u32.to_le_bytes());
    descriptor[44..48].copy_from_slice(&4096_u32.to_le_bytes());
    let facts = parse_class_descriptor(&descriptor).expect("parse");
    assert_eq!(facts.slots, 1);
    assert_eq!(facts.exchange, DescriptorExchange::ExtendedApdu);
    assert!(facts.supports_t0 && facts.supports_t1);
}

#[test]
fn class_descriptor_rejects_identity_length_and_slot_overflow() {
    let mut descriptor = [0_u8; 54];
    descriptor[0] = 54;
    descriptor[1] = 0x21;
    descriptor[44..48].copy_from_slice(&10_u32.to_le_bytes());
    assert!(parse_class_descriptor(&descriptor).is_ok());

    descriptor[0] = 53;
    assert!(parse_class_descriptor(&descriptor).is_err());
    descriptor[0] = 54;
    descriptor[1] = 0x22;
    assert!(parse_class_descriptor(&descriptor).is_err());
    descriptor[1] = 0x21;
    descriptor[4] = u8::MAX;
    assert!(parse_class_descriptor(&descriptor).is_err());
    descriptor[4] = 0;
    descriptor[44..48].copy_from_slice(&9_u32.to_le_bytes());
    assert!(parse_class_descriptor(&descriptor).is_err());
    let mut trailing = descriptor.to_vec();
    trailing.push(0);
    assert!(parse_class_descriptor(&trailing).is_err());
}

#[test]
fn response_validation_rejects_wrong_identity_failure_and_absence() {
    let good = DeviceMessage::decode(&[0x80, 0, 0, 0, 0, 0, 7, 0, 0, 0]).expect("decode");
    assert!(good.validate_for(0x80, 0, 7).is_ok());
    assert!(good.validate_for(0x81, 0, 7).is_err());
    assert!(good.validate_for(0x80, 1, 7).is_err());
    assert!(good.validate_for(0x80, 0, 8).is_err());

    let absent = DeviceMessage::decode(&[0x80, 0, 0, 0, 0, 0, 7, 2, 0, 0]).expect("decode");
    assert!(matches!(
        absent.validate_for(0x80, 0, 7),
        Err(error) if error.kind() == ErrorKind::CardGone
    ));
    let failed = DeviceMessage::decode(&[0x80, 0, 0, 0, 0, 0, 7, 0x40, 5, 0]).expect("decode");
    assert!(failed.validate_for(0x80, 0, 7).is_err());
}

#[test]
fn descriptor_exchange_and_protocol_bits_are_independent() {
    for (feature, expected) in [
        (0_u32, DescriptorExchange::Character),
        (0x0001_0000_u32, DescriptorExchange::Tpdu),
        (0x0002_0000_u32, DescriptorExchange::ShortApdu),
        (0x0004_0000_u32, DescriptorExchange::ExtendedApdu),
    ] {
        let mut descriptor = [0_u8; 54];
        descriptor[0] = 54;
        descriptor[1] = 0x21;
        descriptor[40..44].copy_from_slice(&(feature | 0x8000_0000).to_le_bytes());
        descriptor[44..48].copy_from_slice(&10_u32.to_le_bytes());
        let facts = parse_class_descriptor(&descriptor).expect("descriptor");
        assert_eq!(facts.exchange, expected);
    }

    for (protocols, t0, t1) in [
        (0_u32, false, false),
        (1_u32, true, false),
        (2_u32, false, true),
        (4_u32, false, false),
        (3_u32, true, true),
    ] {
        let mut descriptor = [0_u8; 54];
        descriptor[0] = 54;
        descriptor[1] = 0x21;
        descriptor[6..10].copy_from_slice(&protocols.to_le_bytes());
        descriptor[44..48].copy_from_slice(&10_u32.to_le_bytes());
        let facts = parse_class_descriptor(&descriptor).expect("descriptor");
        assert_eq!((facts.supports_t0, facts.supports_t1), (t0, t1));
    }
}

#[test]
fn device_message_distinguishes_inactive_and_time_extension() {
    let inactive = DeviceMessage::decode(&[RDR_TO_PC_SLOT_STATUS, 0, 0, 0, 0, 0, 1, 1, 0, 0])
        .expect("inactive");
    assert_eq!(inactive.icc_status, IccStatus::Inactive);
    let extension =
        DeviceMessage::decode(&[0x80, 0, 0, 0, 0, 0, 1, 0x80, 1, 0]).expect("time extension");
    assert_eq!(extension.command_status, CommandStatus::TimeExtension);
}
