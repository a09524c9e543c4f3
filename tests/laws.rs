use ibig::IBig;
use integer_picture::{format_integer, Error, Picture};

#[test]
fn ascii_picture_without_separators_pads_to_its_length() {
    assert_eq!(format_integer(7.into(), "000").unwrap(), "007");
    assert_eq!(format_integer((-7).into(), "000").unwrap(), "-007");
    assert_eq!(format_integer(12345.into(), "000").unwrap(), "12345");
    assert_eq!(format_integer(0.into(), "0").unwrap(), "0");
    assert_eq!(format_integer(0.into(), "00").unwrap(), "00");
}

#[test]
fn parsing_twice_gives_equal_pictures() {
    assert_eq!(Picture::parse("#,##0"), Picture::parse("#,##0"));
    assert_eq!(Picture::parse("1,222.000"), Picture::parse("1,222.000"));
    assert_eq!(Picture::parse("0,,0"), Picture::parse("0,,0"));
}

#[test]
fn regular_picture_formats_as_its_group_repeated() {
    let big: IBig = 9_876_543_210u64.into();
    assert_eq!(
        format_integer(big.clone(), "0,000").unwrap(),
        format_integer(big.clone(), "000,000,000,000").unwrap().trim_start_matches(['0', ','])
    );
    assert_eq!(format_integer(big, "0,000").unwrap(), "9,876,543,210");
}

#[test]
fn regular_grouping_continues_left() {
    assert_eq!(format_integer(1234.into(), "0,000").unwrap(), "1,234");
    assert_eq!(format_integer(4321.into(), "00,000").unwrap(), "04,321");
    assert_eq!(format_integer((-1_222_333).into(), "0,000").unwrap(), "-1,222,333");
    assert_eq!(format_integer(123_456_789.into(), "0'00").unwrap(), "1'23'45'67'89");
}

#[test]
fn irregular_grouping_is_used_once() {
    assert_eq!(format_integer(1_222_333.into(), "1,222.000").unwrap(), "1,222.333");
    assert_eq!(format_integer(1_222_333.into(), "12.22.000").unwrap(), "12.22.333");
    // past the picture, digits follow without separators
    assert_eq!(format_integer(987_654_321.into(), "0.00,000").unwrap(), "9876.54,321");
}

#[test]
fn digits_take_the_picture_family() {
    assert_eq!(format_integer(15.into(), "١").unwrap(), "١٥");
    assert_eq!(format_integer(1234.into(), "٠,٠٠٠").unwrap(), "١,٢٣٤");
    assert_eq!(format_integer((-5).into(), "٠٠").unwrap(), "-٠٥");
}

#[test]
fn malformed_pictures_are_refused() {
    for picture in ["0,,0", ",0", "0,", "#", "0#0", "0٠", "0b0", "##", "0,#0"] {
        assert_eq!(Picture::parse(picture), Err(Error::InvalidPictureString), "{}", picture);
        assert_eq!(format_integer(1.into(), picture), Err(Error::InvalidPictureString));
    }
    assert!(Picture::parse("#0").is_ok());
    assert!(Picture::parse("0!0").is_ok());
}

#[test]
fn no_separator_before_the_first_digit() {
    assert_eq!(format_integer(123.into(), "#,##0").unwrap(), "123");
    assert_eq!(format_integer(123_456.into(), "#,##0").unwrap(), "123,456");
    assert_eq!(format_integer(123.into(), "0,000").unwrap(), "0,123");
    assert_eq!(format_integer(0.into(), "#,##0").unwrap(), "0");
}

#[test]
fn empty_picture_writes_plain_digits() {
    assert_eq!(format_integer((-42).into(), "").unwrap(), "-42");
}

#[test]
fn formatting_a_numeral_directly() {
    let picture = Picture::parse("0,000").unwrap();
    assert_eq!(picture.format_decimal(false, "1234567"), "1,234,567");
    assert_eq!(picture.format_decimal(true, "12"), "-0,012");
    let arabic = Picture::parse("٠٠").unwrap();
    assert_eq!(arabic.format_decimal(false, "7"), "٠٧");
}

#[test]
fn formatting_a_parsed_picture() {
    let picture = Picture::parse("#,##0").unwrap();
    assert_eq!(picture.format(1_000_000.into()), "1,000,000");
    assert_eq!(picture.format((-1).into()), "-1");
}
