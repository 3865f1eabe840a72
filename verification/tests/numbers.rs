use dirt::hex::{align_left, format_address, format_bytes, format_hex};

#[test]
fn numbers_have_a_prefix_and_no_leading_zeros() {
    assert_eq!(format_hex(0), "0x0");
    assert_eq!(format_hex(15), "0xf");
    assert_eq!(format_hex(16), "0x10");
    assert_eq!(format_hex(0x402004), "0x402004");
    assert_eq!(format_hex(u64::MAX), "0xffffffffffffffff");
    for number in [0u64, 9, 10, 0xabcdef, 1 << 63] {
        assert_eq!(format_hex(number), format!("{:#x}", number));
    }
}

#[test]
fn addresses_have_sixteen_digits() {
    assert_eq!(format_address(0), "0x0000000000000000");
    assert_eq!(format_address(0x401000), "0x0000000000401000");
    assert_eq!(format_address(0xfedcba9876543210), "0xfedcba9876543210");
    for address in [1u64, 0xff00, u64::MAX] {
        assert_eq!(format_address(address), format!("{:#018x}", address));
    }
}

#[test]
fn bytes_have_two_digits_and_a_space() {
    assert_eq!(format_bytes(&[]), "");
    assert_eq!(format_bytes(&[0x05]), "05 ");
    assert_eq!(format_bytes(&[0xf3, 0x0f, 0x1e, 0xfa]), "f3 0f 1e fa ");
}

#[test]
fn short_texts_are_filled_up_and_long_ones_stay() {
    assert_eq!(align_left("ab".to_string(), 5), "ab   ");
    assert_eq!(align_left("abcde".to_string(), 5), "abcde");
    assert_eq!(align_left("abcdef".to_string(), 5), "abcdef");
    assert_eq!(align_left("é".to_string(), 3), format!("{:<3}", "é"));
    assert_eq!(align_left("".to_string(), 0), "");
}
