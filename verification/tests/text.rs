use fence_chip::text::decimal;
use fence_chip::text::hex_digit_text;

#[test]
fn numbers_are_rendered_in_decimal() {
    assert_eq!(decimal(0), "0");
    assert_eq!(decimal(7), "7");
    assert_eq!(decimal(10), "10");
    assert_eq!(decimal(1204), "1204");
    assert_eq!(decimal(90_000_001), "90000001");
    assert_eq!(decimal(usize::MAX), usize::MAX.to_string());
}

#[test]
fn digits_are_lower_case() {
    let digits: Vec<&str> = (0..16).map(hex_digit_text).collect();
    assert_eq!(digits.concat(), "0123456789abcdef");
}
