use ccidkit::cli::decode_hex;
use ccidkit::text::encode_hex;

#[test]
fn hex_accepts_human_separators_and_round_trips() {
    let decoded = decode_hex("00:A4 04_00").expect("decode");
    assert_eq!(decoded, [0, 0xA4, 4, 0]);
    assert_eq!(encode_hex(&decoded), "00A40400");
}

#[test]
fn hex_rejects_partial_and_non_hex_bytes() {
    assert!(decode_hex("0").is_err());
    assert!(decode_hex("GG").is_err());
}
