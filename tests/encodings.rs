use color_schemes::encodings::{
    decode_hex, encode_hex, hex_digit, Byte, ByteTriple, DecodeError, HexByte,
};
use rand::{Rng, SeedableRng};

#[test]
fn test_parse_hex_string_success() {
    assert_eq!(decode_hex("ff0080"), Ok(ByteTriple(255, 0, 0x80)));
}

#[test]
fn test_parse_hex_string_shorthand() {
    assert_eq!(decode_hex("123"), Ok(ByteTriple(0x11, 0x22, 0x33)));
}

#[test]
fn test_parse_hex_string_invalid_length() {
    assert!(decode_hex("1234").is_err());
}

#[test]
fn test_parse_hex_string_invalid_char() {
    assert!(decode_hex("xyz").is_err());
}

#[test]
fn test_to_hex_string_success_light() {
    assert_eq!(encode_hex(ByteTriple(255, 255, 255)), "ffffff");
}

#[test]
fn test_to_hex_string_success_dark() {
    assert_eq!(encode_hex(ByteTriple(0, 0, 0)), "000000");
}

#[test]
fn test_from_and_to_hex_string() {
    let mut rng = rand_chacha::ChaCha8Rng::seed_from_u64(1337);
    for _ in 0..100 {
        let string = &format!("{:0>6x}", rng.gen::<u64>())[0..6];
        let bytes = decode_hex(string).unwrap();
        assert_eq!(encode_hex(bytes), string.to_string());
    }
}

#[test]
fn every_byte_survives_encode_then_decode() {
    for b in 0..=255u8 {
        let t = ByteTriple(b, 255 - b, b / 3);
        assert_eq!(decode_hex(&encode_hex(t)), Ok(t));
    }
}

#[test]
fn encode_pads_each_byte_to_two_digits() {
    assert_eq!(encode_hex(ByteTriple(1, 0x2a, 0xf0)), "012af0");
}

#[test]
fn encode_is_lowercase() {
    assert_eq!(encode_hex(ByteTriple(0xab, 0xcd, 0xef)), "abcdef");
}

#[test]
fn decode_accepts_both_cases() {
    assert_eq!(decode_hex("AbCdEf"), Ok(ByteTriple(0xab, 0xcd, 0xef)));
    assert_eq!(decode_hex("ABCDEF"), decode_hex("abcdef"));
}

#[test]
fn shorthand_equals_doubled_form() {
    assert_eq!(decode_hex("abc"), decode_hex("aabbcc"));
    assert_eq!(decode_hex("abc"), Ok(ByteTriple(0xaa, 0xbb, 0xcc)));
}

#[test]
fn shorthand_does_not_round_trip_through_encode() {
    assert_eq!(encode_hex(decode_hex("fff").unwrap()), "ffffff");
}

#[test]
fn wrong_lengths_are_invalid_length() {
    for s in ["", "a", "ab", "abcd", "abcde", "abcdef0", "#abcdef"] {
        assert_eq!(decode_hex(s), Err(DecodeError::InvalidLength), "{}", s);
    }
}

#[test]
fn bad_characters_are_invalid_digit() {
    assert_eq!(decode_hex("xyz"), Err(DecodeError::InvalidDigit));
    assert_eq!(decode_hex("12345g"), Err(DecodeError::InvalidDigit));
    assert_eq!(decode_hex("#ab"), Err(DecodeError::InvalidDigit));
    assert_eq!(decode_hex(" 12345"), Err(DecodeError::InvalidDigit));
}

#[test]
fn length_counts_characters_not_bytes() {
    assert_eq!(decode_hex("\u{e9}\u{e9}\u{e9}"), Err(DecodeError::InvalidDigit));
    assert_eq!(decode_hex("\u{e9}\u{e9}"), Err(DecodeError::InvalidLength));
}

#[test]
fn hex_digit_values() {
    assert_eq!(hex_digit('0'), Some(0));
    assert_eq!(hex_digit('9'), Some(9));
    assert_eq!(hex_digit('a'), Some(10));
    assert_eq!(hex_digit('F'), Some(15));
    assert_eq!(hex_digit('g'), None);
    assert_eq!(hex_digit('/'), None);
    assert_eq!(hex_digit(':'), None);
}

#[test]
fn hex_byte_to_byte_is_big_endian() {
    assert_eq!(HexByte('1', '0').to_byte(), Some(Byte(16)));
    assert_eq!(HexByte('f', 'F').to_byte(), Some(Byte(255)));
    assert_eq!(HexByte('0', 'z').to_byte(), None);
}

#[test]
fn from_rounded_clamps_to_byte_range() {
    assert_eq!(Byte::from_rounded(0), Byte(0));
    assert_eq!(Byte::from_rounded(255), Byte(255));
    assert_eq!(Byte::from_rounded(128), Byte(128));
    assert_eq!(Byte::from_rounded(-1), Byte(0));
    assert_eq!(Byte::from_rounded(256), Byte(255));
    assert_eq!(Byte::from_rounded(i32::MIN), Byte(0));
    assert_eq!(Byte::from_rounded(i32::MAX), Byte(255));
}
