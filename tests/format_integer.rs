use ibig::IBig;
use integer_picture::{format_integer, Error, Picture};

#[test]
fn test_format_integer() {
    assert_eq!(format_integer(123.into(), "1").unwrap(), "123");
}

#[test]
fn test_format_zero_padded_integer() {
    assert_eq!(format_integer(123.into(), "0000").unwrap(), "0123");
}

#[test]
fn test_format_zero_padded_integer_negative() {
    assert_eq!(format_integer((-123).into(), "00000").unwrap(), "-00123");
}

#[test]
fn test_format_zero_padded_integer_negative_shorter() {
    assert_eq!(format_integer((-123).into(), "0000").unwrap(), "-0123");
}

#[test]
fn test_format_with_thousands_separator() {
    assert_eq!(format_integer(1234.into(), "0,000").unwrap(), "1,234");
}

#[test]
fn test_format_with_thousands_separator2() {
    assert_eq!(format_integer(4321.into(), "0,000").unwrap(), "4,321");
}

#[test]
fn test_format_with_thousands_separator_and_zero_prefix() {
    assert_eq!(format_integer(4321.into(), "00,000").unwrap(), "04,321");
}

#[test]
fn test_illegal_primary_token() {
    assert_eq!(Picture::parse("0b0"), Err(Error::InvalidPictureString));
}

#[test]
fn test_illegal_decimal_digit_pattern_with_adjacent_grouping_separators() {
    assert_eq!(Picture::parse("0,,0"), Err(Error::InvalidPictureString));
}

#[test]
fn test_illegal_decimal_digit_pattern_with_starting_grouping_separator() {
    assert_eq!(Picture::parse(",0"), Err(Error::InvalidPictureString));
}

#[test]
fn test_illegal_decimal_digit_pattern_with_ending_grouping_separator() {
    assert_eq!(Picture::parse("0,"), Err(Error::InvalidPictureString));
}

#[test]
fn test_optional_digit_sign_before_mandatory_digit_sign() {
    assert!(Picture::parse("#0").is_ok());
}

#[test]
fn test_optional_digit_by_itself_is_illegal() {
    assert_eq!(Picture::parse("#"), Err(Error::InvalidPictureString));
}

#[test]
fn test_optional_digit_sign_after_mandatory_digit_sign_is_illegal() {
    assert_eq!(Picture::parse("0#0"), Err(Error::InvalidPictureString));
}

#[test]
fn test_optional_digit_sign_after_grouping_separator_and_mandatory_digit_sign_is_illegal() {
    assert_eq!(Picture::parse("0,#0"), Err(Error::InvalidPictureString));
}

#[test]
fn test_digit_in_different_digit_family() {
    // 0 arab indic digit family works
    assert!(Picture::parse("٠").is_ok());
}

#[test]
fn test_digit_in_different_digit_family2() {
    // 1 in arab indic digit family works
    assert!(Picture::parse("١").is_ok());
}

#[test]
fn test_digits_not_in_same_digit_family_is_illegal() {
    // here we mix arab indic digit family with ascii digits
    assert_eq!(Picture::parse("0٠"), Err(Error::InvalidPictureString));
}

#[test]
fn test_letter_is_legal_separator() {
    assert!(Picture::parse("0!0").is_ok());
}

#[test]
fn test_reject_illegal_separator() {
    // the roman numeral I is in the digit family Nl, which is not
    // a valid separator
    assert_eq!(Picture::parse("0Ⅰ0"), Err(Error::InvalidPictureString));
}

#[test]
fn test_format_grouping_separator_with_irregular_separators() {
    assert_eq!(
        format_integer(1_222_333.into(), "1,222.000").unwrap(),
        "1,222.333"
    );
}

#[test]
fn test_format_grouping_separator_with_irregular_spacing() {
    assert_eq!(
        format_integer(1_222_333.into(), "12.22.000").unwrap(),
        "12.22.333"
    );
}

#[test]
fn test_format_with_thousands_separator_large_regular() {
    assert_eq!(
        format_integer(1_222_333.into(), "0,000").unwrap(),
        "1,222,333"
    );
}

#[test]
fn test_format_with_thousands_negative_regular() {
    assert_eq!(
        format_integer((-1_222_333).into(), "0,000").unwrap(),
        "-1,222,333"
    );
}

#[test]
fn test_format_digit_as_different_digit_family() {
    // transliterate into arab indic digits
    assert_eq!(format_integer(15.into(), "١").unwrap(), "١٥");
}

#[test]
fn test_format_digit_as_nko_digits() {
    // N'Ko writes its more significant digits on the right; the picture's
    // digits are still substituted one for one, left to right
    assert_eq!(format_integer(15.into(), "߀").unwrap(), "߁߅")
}

#[test]
fn test_format_with_only_optional_digits() {
    assert_eq!(format_integer(15.into(), "#1").unwrap(), "15");
}

#[test]
fn test_format_with_optional_digits_and_thousands() {
    assert_eq!(format_integer(15453.into(), "#,##1").unwrap(), "15,453");
}

#[test]
fn test_format_with_million_and_thousand_separator() {
    assert_eq!(
        format_integer(1_000_000.into(), "#.##,##1").unwrap(),
        "10.00,000"
    );
}
