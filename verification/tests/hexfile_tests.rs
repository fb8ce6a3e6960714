use asmb::hexfile::{hex_text_to_bin, HexDecodeError};

#[test]
fn decodes_hex_file_text() {
    assert_eq!(hex_text_to_bin("48 65\n6c 6C\n"), Ok(vec![0x48, 0x65, 0x6c, 0x6c]));
    assert_eq!(hex_text_to_bin("  90C3  "), Ok(vec![0x90, 0xc3]));
    assert_eq!(hex_text_to_bin(""), Ok(vec![]));
}

#[test]
fn odd_digit_count_is_refused() {
    assert_eq!(hex_text_to_bin("123"), Err(HexDecodeError::InvalidInputLength));
}

#[test]
fn non_digits_are_refused() {
    assert_eq!(hex_text_to_bin("zz"), Err(HexDecodeError::InvalidInput));
    assert_eq!(hex_text_to_bin("4\t8x"), Err(HexDecodeError::InvalidInput));
    assert_eq!(hex_text_to_bin("4\t8"), Err(HexDecodeError::InvalidInputLength));
    // a two-byte character makes an even count but is no digit
    assert_eq!(hex_text_to_bin("é"), Err(HexDecodeError::InvalidInput));
    // a one-byte and a two-byte character make an odd count
    assert_eq!(hex_text_to_bin("aé"), Err(HexDecodeError::InvalidInputLength));
}

#[test]
fn one_byte_per_digit_pair() {
    let text = "0011 2233\n4455 6677\n8899 aabb\nccdd eeff\n";
    let v = hex_text_to_bin(text).unwrap();
    assert_eq!(v.len() * 2, 32);
    assert_eq!(v[0], 0x00);
    assert_eq!(v[15], 0xff);
}
