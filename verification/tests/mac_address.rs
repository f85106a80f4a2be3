use unifi_search::mac_address::validation::{text_is_valid_mac, MAC_ADDR_REGEX_STR};
use unifi_search::mac_address::{MacAddress, MacParseError};

fn rejected(text: &str) -> bool {
    match MacAddress::parse(text) {
        Ok(_) => false,
        Err(MacParseError::InvalidMac { invalid_mac }) => invalid_mac == text,
    }
}

#[test]
fn parse_reads_colon_form() {
    let mac = MacAddress::parse("AA:BB:CC:DD:EE:FF").unwrap();
    assert_eq!(mac.value(), 0xAABB_CCDD_EEFF);
}

#[test]
fn parse_reads_dash_form_and_lower_case() {
    let mac = MacAddress::parse("aa-bb-cc-dd-ee-ff").unwrap();
    assert_eq!(mac.value(), 0xAABB_CCDD_EEFF);
    assert_eq!(mac, MacAddress::parse("AA:BB:CC:DD:EE:FF").unwrap());
}

#[test]
fn parse_rejects_empty_text() {
    assert!(rejected(""));
}

#[test]
fn parse_rejects_wrong_separator_count() {
    assert!(rejected("AA:BB:CC:DD:EEFF"));
    assert!(rejected("AABBCCDDEEFF"));
    assert!(rejected("AA:BB:CC:DD:EE:F:F"));
}

#[test]
fn parse_rejects_non_hex_characters() {
    assert!(rejected("AA:BB:CC:DD:EE:FG"));
    assert!(rejected("ZZ:BB:CC:DD:EE:FF"));
    assert!(rejected("AA:BB:CC:DD:EE:F\u{e9}"));
}

#[test]
fn parse_rejects_too_few_or_too_many_octets() {
    assert!(rejected("AA:BB:CC:DD:EE"));
    assert!(rejected("AA:BB:CC:DD:EE:FF:00"));
}

#[test]
fn parse_rejects_mixed_separators() {
    assert!(rejected("AA:BB-CC:DD:EE:FF"));
    assert!(rejected("AA-BB-CC-DD-EE:FF"));
}

#[test]
fn parse_rejects_other_separators() {
    assert!(rejected("AA.BB.CC.DD.EE.FF"));
    assert!(rejected("AA BB CC DD EE FF"));
}

#[test]
fn from_str_goes_through_parse() {
    let mac: MacAddress = "01:23:45:67:89:ab".parse().unwrap();
    assert_eq!(mac.value(), 0x0123_4567_89AB);
    assert!("01:23:45:67:89".parse::<MacAddress>().is_err());
}

#[test]
fn canonical_string_is_uppercase_with_colons() {
    let mac = MacAddress::parse("0a-1b-2c-3d-4e-5f").unwrap();
    assert_eq!(mac.to_canonical_string(), "0A:1B:2C:3D:4E:5F");
}

#[test]
fn canonical_string_pads_with_zeros() {
    assert_eq!(MacAddress::new(0).to_canonical_string(), "00:00:00:00:00:00");
    assert_eq!(MacAddress::new(0x1).to_canonical_string(), "00:00:00:00:00:01");
    assert_eq!(MacAddress::new(0xFFFF_FFFF_FFFF).to_canonical_string(), "FF:FF:FF:FF:FF:FF");
}

#[test]
fn canonical_string_parses_back() {
    for n in [0u64, 1, 0x0102_0304_0506, 0xAABB_CCDD_EEFF, 0xFFFF_FFFF_FFFF] {
        let mac = MacAddress::new(n);
        let back = MacAddress::parse(&mac.to_canonical_string()).unwrap();
        assert_eq!(back.value(), n);
    }
}

#[test]
fn wire_bytes_are_big_endian_with_zero_top() {
    let mac = MacAddress::new(0x0102_0304_0506);
    assert_eq!(mac.as_bytes(), [0, 0, 1, 2, 3, 4, 5, 6]);
    assert_eq!(MacAddress::new(0xFFFF_FFFF_FFFF).as_bytes(), 0xFFFF_FFFF_FFFFu64.to_be_bytes());
    assert_eq!(MacAddress::new(0).as_bytes(), [0u8; 8]);
}

#[test]
fn wire_bytes_round_trip() {
    for n in [0u64, 0xFF, 0xAABB_CCDD_EEFF, 0xFFFF_FFFF_FFFF] {
        let bytes = MacAddress::new(n).as_bytes();
        assert_eq!(MacAddress::from_wire_bytes(bytes).unwrap().value(), n);
    }
}

#[test]
fn decoding_rejects_nonzero_top_bytes() {
    assert!(MacAddress::from_wire_bytes([1, 0, 0, 0, 0, 0, 0, 0]).is_none());
    assert!(MacAddress::from_wire_bytes([0, 1, 0, 0, 0, 0, 0, 0]).is_none());
    assert!(MacAddress::from_wire_bytes([0, 0, 0xFF, 0xFF, 0xFF, 0xFF, 0xFF, 0xFF]).is_some());
}

#[test]
fn octets_come_most_significant_first() {
    let mac = MacAddress::new(0xAABB_CCDD_EEFF);
    let octets: Vec<u8> = (0..6).map(|k| mac.octet(k)).collect();
    assert_eq!(octets, vec![0xAA, 0xBB, 0xCC, 0xDD, 0xEE, 0xFF]);
}

#[test]
fn default_is_the_zero_address() {
    assert_eq!(MacAddress::default().value(), 0);
}

#[test]
fn validation_works_on_bytes() {
    assert!(text_is_valid_mac(b"00:11:22:33:44:55"));
    assert!(text_is_valid_mac(b"00-11-22-aa-BB-cc"));
    assert!(!text_is_valid_mac(b"00:11:22:33:44:5"));
    assert!(!text_is_valid_mac(b"00:11:22:33:44-55"));
    assert!(!text_is_valid_mac(b""));
}

#[test]
fn structured_text_is_read_like_any_text() {
    let mac = MacAddress::from_structured_text("de:ad:be:ef:00:01").unwrap();
    assert_eq!(mac.value(), 0xDEAD_BEEF_0001);
}

#[test]
fn structured_text_that_is_refused_names_the_pattern() {
    let error = MacAddress::from_structured_text("de:ad:be:ef:00").unwrap_err();
    assert_eq!(error.unexpected, "de:ad:be:ef:00");
    assert_eq!(
        error.expected,
        format!("MAC Address in string format matching regex: {}", MAC_ADDR_REGEX_STR)
    );
    assert!(error.expected.ends_with("[0-9A-Fa-f]{2}$"));
}

#[test]
fn try_from_goes_through_parse() {
    let mac = MacAddress::try_from("AA-BB-CC-00-11-22").unwrap();
    assert_eq!(mac.value(), 0xAABB_CC00_1122);
    assert!(MacAddress::try_from("AA-BB-CC-00-11:22").is_err());
}

#[test]
fn equality_is_by_value() {
    let a = MacAddress::parse("0A:0b:0C:0d:0E:0f").unwrap();
    let b = MacAddress::parse("0a-0B-0c-0D-0e-0F").unwrap();
    assert_eq!(a, b);
    assert_ne!(a, MacAddress::new(a.value() + 1));
}

#[test]
fn try_from_takes_borrowed_and_owned_text() {
    let borrowed = std::borrow::Cow::Borrowed("00:1A:2B:3C:4D:5E");
    assert_eq!(MacAddress::try_from(borrowed).unwrap().value(), 0x001A_2B3C_4D5E);
    let owned: std::borrow::Cow<'_, str> = std::borrow::Cow::Owned("00-1a-2b-3c-4d-5e".to_string());
    assert_eq!(MacAddress::try_from(owned).unwrap().value(), 0x001A_2B3C_4D5E);
    let bad: std::borrow::Cow<'_, str> = std::borrow::Cow::Borrowed("00:1A:2B");
    assert!(MacAddress::try_from(bad).is_err());
}
