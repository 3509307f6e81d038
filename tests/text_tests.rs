use commonr::text::{hex_text, push_binary, push_left, push_right, signed_decimal};

#[test]
fn hex_of_numbers() {
    assert_eq!(hex_text(0), "0");
    assert_eq!(hex_text(255), "ff");
    assert_eq!(hex_text(0x1000), "1000");
}

#[test]
fn decimal_of_extremes() {
    assert_eq!(signed_decimal(0), "0");
    assert_eq!(signed_decimal(-5), "-5");
    assert_eq!(signed_decimal(1234567890), "1234567890");
    assert_eq!(signed_decimal(i64::MIN), "-9223372036854775808");
    assert_eq!(signed_decimal(i64::MAX), "9223372036854775807");
}

#[test]
fn padding_both_ways() {
    let mut s = String::from("[");
    push_right(&mut s, "42", 5);
    push_left(&mut s, "x", 3);
    push_right(&mut s, "toolong", 3);
    assert_eq!(s, "[   42x  toolong");
}

#[test]
fn binary_is_zero_filled() {
    let mut s = String::new();
    push_binary(&mut s, 5, 8);
    assert_eq!(s, "0b00000101");
    let mut t = String::new();
    push_binary(&mut t, 0x1ff, 4);
    assert_eq!(t, "0b111111111");
}
