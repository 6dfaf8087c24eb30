use block_reconcile::{BlockHash, HashError};

const DIGITS: &str = "00112233445566778899aabbccddeeff00112233445566778899aabbccddeeff";

fn expected_bytes() -> [u8; 32] {
    let half: [u8; 16] = [
        0x00, 0x11, 0x22, 0x33, 0x44, 0x55, 0x66, 0x77, 0x88, 0x99, 0xaa, 0xbb, 0xcc, 0xdd, 0xee,
        0xff,
    ];
    let mut bytes = [0u8; 32];
    for i in 0..32 {
        bytes[i] = half[i % 16];
    }
    bytes
}

#[test]
fn parse_reads_each_pair_of_digits_as_a_byte() {
    let hash = BlockHash::parse(DIGITS).unwrap();
    assert_eq!(hash.bytes, expected_bytes());
}

#[test]
fn parse_takes_the_prefix() {
    let text = format!("0x{}", DIGITS);
    let hash = BlockHash::parse(&text).unwrap();
    assert_eq!(hash.bytes, expected_bytes());
}

#[test]
fn parse_takes_capital_digits() {
    let hash = BlockHash::parse(&DIGITS.to_uppercase()).unwrap();
    assert_eq!(hash.bytes, expected_bytes());
}

#[test]
fn parse_takes_the_prefix_once_only() {
    let text = format!("0x0x{}", &DIGITS[4..]);
    assert_eq!(BlockHash::parse(&text), Err(HashError::NotHex));
}

#[test]
fn parse_refuses_a_capital_prefix() {
    let text = format!("0X{}", DIGITS);
    assert_eq!(BlockHash::parse(&text), Err(HashError::NotHex));
}

#[test]
fn parse_refuses_what_is_no_digit() {
    let text = format!("{}zz", &DIGITS[2..]);
    assert_eq!(BlockHash::parse(&text), Err(HashError::NotHex));
    assert_eq!(BlockHash::parse("é"), Err(HashError::NotHex));
}

#[test]
fn parse_refuses_an_odd_number_of_digits() {
    assert_eq!(BlockHash::parse(&DIGITS[1..]), Err(HashError::NotHex));
}

#[test]
fn parse_neither_pads_nor_truncates() {
    assert_eq!(BlockHash::parse("0xaa"), Err(HashError::WrongLength(1)));
    assert_eq!(BlockHash::parse(""), Err(HashError::WrongLength(0)));
    let long = format!("{}00", DIGITS);
    assert_eq!(BlockHash::parse(&long), Err(HashError::WrongLength(33)));
}

#[test]
fn to_hex_writes_small_digits_without_prefix() {
    let hash = BlockHash { bytes: expected_bytes() };
    assert_eq!(hash.to_hex(), DIGITS);
}

#[test]
fn text_round_trips_to_the_same_hash() {
    for text in [DIGITS.to_string(), format!("0x{}", DIGITS), DIGITS.to_uppercase()] {
        let hash = BlockHash::parse(&text).unwrap();
        let written = hash.to_hex();
        assert_eq!(written, DIGITS);
        assert_eq!(BlockHash::parse(&written), Ok(hash));
        assert_eq!(BlockHash::parse(&format!("0x{}", written)), Ok(hash));
    }
}

#[test]
fn hashes_compare_byte_by_byte() {
    let a = BlockHash { bytes: [7; 32] };
    let mut other = [7u8; 32];
    assert!(a == BlockHash { bytes: other });
    other[31] = 8;
    assert!(a != BlockHash { bytes: other });
}
