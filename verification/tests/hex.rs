use pixstream::hex::convert_to_hex;
use pixstream::hex::itoh;

#[test]
fn itoh_gives_upper_case_digits() {
    let expected = "0123456789ABCDEF";
    for (x, c) in expected.chars().enumerate() {
        assert_eq!(itoh(x as u8), c);
    }
}

#[test]
fn bytes_are_written_as_two_digits() {
    assert_eq!(convert_to_hex(0), "00");
    assert_eq!(convert_to_hex(9), "09");
    assert_eq!(convert_to_hex(10), "0A");
    assert_eq!(convert_to_hex(16), "10");
    assert_eq!(convert_to_hex(137), "89");
    assert_eq!(convert_to_hex(0xAB), "AB");
    assert_eq!(convert_to_hex(255), "FF");
}

#[test]
fn every_byte_matches_the_standard_formatting() {
    for n in 0..=255u8 {
        assert_eq!(convert_to_hex(n), format!("{:02X}", n));
    }
}
