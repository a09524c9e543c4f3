use integer_picture::digit::{is_group_separator, AsciiDigit, DigitFamily};

const ARAB_INDIC_DIGIT_ZERO: char = '٠';
const ARAB_INDIC_DIGIT_ONE: char = '١';
const NKO_DIGIT_ZERO: char = '߀';
const NKO_DIGIT_FIVE: char = '߅';

#[test]
fn test_digit_family() {
    assert_eq!(DigitFamily::new('1').map(|f| f.zero()), Some('0'));
    assert_eq!(
        DigitFamily::new(ARAB_INDIC_DIGIT_ONE).map(|f| f.zero()),
        Some(ARAB_INDIC_DIGIT_ZERO)
    );
    assert_eq!(
        DigitFamily::new(NKO_DIGIT_FIVE).map(|f| f.zero()),
        Some(NKO_DIGIT_ZERO)
    );
    assert_eq!(DigitFamily::new('a'), None);
}

#[test]
fn test_ascii_digit_into_digit_family() {
    assert_eq!(
        DigitFamily::new(ARAB_INDIC_DIGIT_ZERO)
            .unwrap()
            .digit(AsciiDigit::new('1')),
        ARAB_INDIC_DIGIT_ONE
    );
    assert_eq!(
        DigitFamily::new(NKO_DIGIT_ZERO)
            .unwrap()
            .digit(AsciiDigit::new('5')),
        NKO_DIGIT_FIVE
    );
}

#[test]
fn test_is_group_separator() {
    assert!(is_group_separator('!'));
    assert!(is_group_separator(','));
    assert!(!is_group_separator('Ⅰ'));
    assert!(!is_group_separator('1'));
    assert!(!is_group_separator('x'))
}

#[test]
fn families_of_same_script_agree() {
    assert_eq!(DigitFamily::new('0'), DigitFamily::new('9'));
    assert_ne!(DigitFamily::new('0'), DigitFamily::new(ARAB_INDIC_DIGIT_ZERO));
}

#[test]
fn ascii_family_keeps_digits() {
    let ascii = DigitFamily::new('7').unwrap();
    assert_eq!(ascii.digit(AsciiDigit::new('0')), '0');
    assert_eq!(ascii.digit(AsciiDigit::new('9')), '9');
}

#[test]
fn letters_and_numbers_are_not_separators() {
    // other number, modifier letter, titlecase letter, uppercase letter
    assert!(!is_group_separator('½'));
    assert!(!is_group_separator('ʰ'));
    assert!(!is_group_separator('ǅ'));
    assert!(!is_group_separator('A'));
    assert!(!is_group_separator('木'));
}

#[test]
fn punctuation_symbols_and_spaces_are_separators() {
    assert!(is_group_separator('.'));
    assert!(is_group_separator(' '));
    assert!(is_group_separator('\u{a0}'));
    assert!(is_group_separator('$'));
    assert!(is_group_separator('#'));
}

#[test]
fn non_digits_have_no_family() {
    assert_eq!(DigitFamily::new('Ⅰ'), None);
    assert_eq!(DigitFamily::new(','), None);
    assert_eq!(DigitFamily::new('½'), None);
}
