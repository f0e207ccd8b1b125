use hyperg::hex::{hash_to_hex, parse_hash, HashParseError};

#[test]
fn hex_has_thirty_two_lowercase_digits() {
    assert_eq!(hash_to_hex(0), "00000000000000000000000000000000");
    assert_eq!(hash_to_hex(0xDEADBEEF), "000000000000000000000000deadbeef");
    assert_eq!(hash_to_hex(u128::MAX), "ffffffffffffffffffffffffffffffff");
    assert_eq!(
        hash_to_hex(0x0123456789abcdef0011223344556677),
        "0123456789abcdef0011223344556677"
    );
}

#[test]
fn hex_agrees_with_the_standard_formatter() {
    for hash in [1u128, 15, 16, 255, 1 << 64, (1 << 127) + 12345, u128::MAX - 1] {
        assert_eq!(hash_to_hex(hash), format!("{:032x}", hash));
    }
}

#[test]
fn parse_reads_hexadecimal_of_either_case() {
    assert_eq!(parse_hash("ff"), Ok(255));
    assert_eq!(parse_hash("FF"), Ok(255));
    assert_eq!(parse_hash("+ff"), Ok(255));
    assert_eq!(parse_hash("0"), Ok(0));
    assert_eq!(parse_hash("000000000000000000000000000000000000000001"), Ok(1));
    assert_eq!(parse_hash("ffffffffffffffffffffffffffffffff"), Ok(u128::MAX));
    assert_eq!(parse_hash("aBcDeF0123456789"), Ok(0xabcdef0123456789));
}

#[test]
fn parse_rejects_what_is_no_hash() {
    assert_eq!(parse_hash(""), Err(HashParseError::Empty));
    assert_eq!(parse_hash("+"), Err(HashParseError::InvalidDigit));
    assert_eq!(parse_hash("-1"), Err(HashParseError::InvalidDigit));
    assert_eq!(parse_hash("xyz"), Err(HashParseError::InvalidDigit));
    assert_eq!(parse_hash("12 "), Err(HashParseError::InvalidDigit));
    assert_eq!(parse_hash("++1"), Err(HashParseError::InvalidDigit));
    assert_eq!(parse_hash("0x10"), Err(HashParseError::InvalidDigit));
    assert_eq!(parse_hash("caf\u{e9}"), Err(HashParseError::InvalidDigit));
    assert_eq!(parse_hash("100000000000000000000000000000000"), Err(HashParseError::Overflow));
    assert_eq!(
        parse_hash("fffffffffffffffffffffffffffffffff"),
        Err(HashParseError::Overflow)
    );
}

#[test]
fn parse_agrees_with_the_standard_parser() {
    for text in ["7", "+7", "dead", "DEAD", "", "+", "g", "-0", "00ff", " 1", "1_000"] {
        let ours = parse_hash(text);
        let theirs = u128::from_str_radix(text, 16);
        assert_eq!(ours.ok(), theirs.ok(), "for {:?}", text);
    }
}

#[test]
fn parse_reads_back_what_hex_wrote() {
    for hash in [0u128, 1, 0xabc, 1 << 100, u128::MAX, 0x2322ae5dde404141eacf018fbf1678ba] {
        assert_eq!(parse_hash(&hash_to_hex(hash)), Ok(hash));
    }
}

#[test]
fn parse_error_messages() {
    assert_eq!(HashParseError::Empty.message(), "cannot parse integer from empty string");
    assert_eq!(HashParseError::InvalidDigit.message(), "invalid digit found in string");
    assert_eq!(HashParseError::Overflow.message(), "number too large to fit in target type");
}
