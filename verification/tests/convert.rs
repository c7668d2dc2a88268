use turing_adder::convert::to_dec;

#[test]
fn binary_numerals_convert_exactly() {
    assert_eq!(to_dec("1010"), 10);
    assert_eq!(to_dec("0"), 0);
    assert_eq!(to_dec("1"), 1);
    assert_eq!(to_dec("10000"), 16);
    assert_eq!(to_dec("111"), 7);
}

#[test]
fn leading_zeros_do_not_change_the_value() {
    assert_eq!(to_dec("0001010"), 10);
}

#[test]
fn malformed_numerals_convert_to_zero() {
    assert_eq!(to_dec(""), 0);
    assert_eq!(to_dec("102"), 0);
    assert_eq!(to_dec("1 0"), 0);
    assert_eq!(to_dec("abc"), 0);
}

#[test]
fn the_largest_word_still_fits() {
    let ones: String = "1".repeat(64);
    assert_eq!(to_dec(&ones), usize::MAX);
}

#[test]
fn an_overflowing_numeral_converts_to_zero() {
    let ones: String = "1".repeat(65);
    assert_eq!(to_dec(&ones), 0);
}
