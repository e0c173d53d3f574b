use paninifs_core::hex::to_hex_lower;

#[test]
fn hex_of_no_bytes_is_empty() {
    assert_eq!(to_hex_lower(&[]), "");
}

#[test]
fn hex_has_two_lower_case_digits_per_byte() {
    assert_eq!(to_hex_lower(&[0x00, 0xab, 0xff, 0x10, 0x09]), "00abff1009");
}

#[test]
fn hex_covers_every_byte() {
    let bytes: Vec<u8> = (0..=255u8).collect();
    let text = to_hex_lower(&bytes);
    assert_eq!(text.len(), 512);
    for (i, b) in bytes.iter().enumerate() {
        assert_eq!(&text[2 * i..2 * i + 2], format!("{:02x}", b));
    }
}
