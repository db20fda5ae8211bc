use wol_proxy::wake::{wake_payload, PAYLOAD_LEN};

#[test]
fn payload_is_header_and_sixteen_copies() {
    let mac = [0x01, 0x23, 0x45, 0x67, 0x89, 0xab];
    let payload = wake_payload(&mac);
    assert_eq!(PAYLOAD_LEN, 102);
    assert_eq!(payload.len(), 102);
    assert_eq!(&payload[..6], &[0xff; 6]);
    for copy in 0..16 {
        assert_eq!(&payload[6 + 6 * copy..12 + 6 * copy], &mac);
    }
}

#[test]
fn payload_follows_the_address() {
    let payload = wake_payload(&[0, 1, 2, 3, 4, 5]);
    let mut expected = vec![0xffu8; 6];
    for _ in 0..16 {
        expected.extend_from_slice(&[0, 1, 2, 3, 4, 5]);
    }
    assert_eq!(payload, expected);
    assert_ne!(payload, wake_payload(&[5, 4, 3, 2, 1, 0]));
}

#[test]
fn payload_of_parsed_address() {
    let mac = wol_proxy::parse_mac("de:ad:be:ef:00:01").unwrap();
    let payload = wake_payload(&mac);
    assert_eq!(&payload[96..], &[0xde, 0xad, 0xbe, 0xef, 0x00, 0x01]);
}
