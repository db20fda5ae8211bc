use wol_proxy::mac::{parse_mac, MacError, MAC_LEN};

#[test]
fn colon_separated_address() {
    assert_eq!(parse_mac("01:23:45:67:89:ab"), Ok([0x01, 0x23, 0x45, 0x67, 0x89, 0xab]));
}

#[test]
fn upper_and_lower_case_digits() {
    assert_eq!(parse_mac("aA-Bb-cC-DD-ee-fF"), Ok([0xaa, 0xbb, 0xcc, 0xdd, 0xee, 0xff]));
    assert_eq!(parse_mac("00:09:0a:0f:a0:f0"), Ok([0x00, 0x09, 0x0a, 0x0f, 0xa0, 0xf0]));
}

#[test]
fn any_single_character_separates() {
    assert_eq!(parse_mac("01x23 45.67/89_ab"), Ok([0x01, 0x23, 0x45, 0x67, 0x89, 0xab]));
}

#[test]
fn text_behind_the_sixth_group_is_not_read() {
    assert_eq!(parse_mac("01:23:45:67:89:ab:cd"), Ok([0x01, 0x23, 0x45, 0x67, 0x89, 0xab]));
    assert_eq!(parse_mac("01:23:45:67:89:abzz"), Ok([0x01, 0x23, 0x45, 0x67, 0x89, 0xab]));
}

#[test]
fn plus_sign_before_a_single_digit() {
    assert_eq!(parse_mac("+1:+f:00:00:00:+0"), Ok([0x01, 0x0f, 0x00, 0x00, 0x00, 0x00]));
}

#[test]
fn agrees_with_radix_parsing_on_every_pair() {
    let mut text = *b"00:00:00:00:00:00";
    for first in 0u8..128 {
        for second in 0u8..128 {
            text[3] = first;
            text[4] = second;
            let mac = std::str::from_utf8(&text).unwrap();
            let expected = u8::from_str_radix(&mac[3..5], 16).ok();
            let octet = match parse_mac(mac) {
                Ok(mac) => Some(mac[1]),
                Err(error) => {
                    assert_eq!(error, MacError::InvalidOctet { octet: 1 });
                    None
                }
            };
            assert_eq!(octet, expected);
        }
    }
}

#[test]
fn short_text_is_truncated() {
    assert_eq!(parse_mac(""), Err(MacError::Truncated { octet: 0 }));
    assert_eq!(parse_mac("0"), Err(MacError::Truncated { octet: 0 }));
    assert_eq!(parse_mac("01:23:45"), Err(MacError::Truncated { octet: 3 }));
    assert_eq!(parse_mac("01:23:45:67:89:a"), Err(MacError::Truncated { octet: 5 }));
}

#[test]
fn bad_digit_is_an_invalid_octet() {
    assert_eq!(parse_mac("0g:23:45:67:89:ab"), Err(MacError::InvalidOctet { octet: 0 }));
    assert_eq!(parse_mac("01:23:45:67:89:a "), Err(MacError::InvalidOctet { octet: 5 }));
    assert_eq!(parse_mac("01:-3:45:67:89:ab"), Err(MacError::InvalidOctet { octet: 1 }));
    assert_eq!(parse_mac("01:++:45:67:89:ab"), Err(MacError::InvalidOctet { octet: 1 }));
    assert_eq!(parse_mac("01:3+:45:67:89:ab"), Err(MacError::InvalidOctet { octet: 1 }));
}

#[test]
fn first_bad_group_decides_the_error() {
    assert_eq!(parse_mac("01:zz:4"), Err(MacError::InvalidOctet { octet: 1 }));
    assert_eq!(parse_mac("zz"), Err(MacError::InvalidOctet { octet: 0 }));
    assert_eq!(parse_mac("01:23:4"), Err(MacError::Truncated { octet: 2 }));
}

#[test]
fn characters_outside_ascii_are_no_digits() {
    assert_eq!(parse_mac("01:é:45:67:89:ab"), Err(MacError::InvalidOctet { octet: 1 }));
    assert_eq!(parse_mac("01é23:45:67:89:ab"), Err(MacError::InvalidOctet { octet: 1 }));
}

#[test]
fn address_has_six_octets() {
    assert_eq!(MAC_LEN, 6);
    assert_eq!(parse_mac("ff:ff:ff:ff:ff:ff").unwrap().len(), MAC_LEN);
}
