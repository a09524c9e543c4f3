use vstd::prelude::*;

use crate::text::char_from_u32;

verus! {

/// Discriminants of icu's `GeneralCategory` (a `repr(u8)` enum) for the
/// categories this module tells apart.
pub const UPPERCASE_LETTER: u8 = 1;
pub const LOWERCASE_LETTER: u8 = 2;
pub const TITLECASE_LETTER: u8 = 3;
pub const MODIFIER_LETTER: u8 = 4;
pub const OTHER_LETTER: u8 = 5;
pub const DECIMAL_NUMBER: u8 = 9;
pub const LETTER_NUMBER: u8 = 10;
pub const OTHER_NUMBER: u8 = 11;

/// The General_Category of `c` in icu's compiled Unicode data, as its discriminant.
pub uninterp spec fn general_category_code(c: char) -> u8;

/// The maximal runs of consecutive code points whose General_Category has
/// discriminant `code` in icu's compiled Unicode data, each as its first and
/// last code point, in code point order.
pub uninterp spec fn category_ranges(code: u8) -> Seq<(u32, u32)>;

/// Relies on icu's `CodePointMapDataBorrowed::get` over the compiled
/// General_Category map: the category of `c`, as its discriminant.
#[verifier::external_body]
fn general_category(c: char) -> (r: u8)
    ensures
        r == general_category_code(c),
{
    icu::properties::maps::general_category().get(c) as u8
}

/// Relies on icu's `CodePointMapDataBorrowed::iter_ranges_for_value` over the
/// compiled General_Category map: the ranges of code points whose category has
/// discriminant `code`. `GeneralCategory::try_from` accepts every discriminant
/// up to 29.
#[verifier::external_body]
fn ranges_of_category(code: u8) -> (r: Vec<(u32, u32)>)
    requires
        code <= 29,
    ensures
        r@ == category_ranges(code),
{
    let gc = icu::properties::GeneralCategory::try_from(code).unwrap();
    let map = icu::properties::maps::general_category();
    map.iter_ranges_for_value(gc).map(|r| (*r.start(), *r.end())).collect()
}

/// Letters and numbers: the categories a group separator may not have.
pub open spec fn is_letter_or_number(code: u8) -> bool {
    code == DECIMAL_NUMBER || code == LETTER_NUMBER || code == OTHER_NUMBER
        || code == UPPERCASE_LETTER || code == LOWERCASE_LETTER || code == TITLECASE_LETTER
        || code == MODIFIER_LETTER || code == OTHER_LETTER
}

/// Whether `c` may stand as a group separator in a picture.
pub open spec fn is_separator_char(c: char) -> bool {
    !is_letter_or_number(general_category_code(c))
}

/// Whether `c` may separate digit groups: it is neither a letter nor a number.
pub fn is_group_separator(c: char) -> (r: bool)
    ensures
        r == is_separator_char(c),
{
    let category = general_category(c);
    !(category == DECIMAL_NUMBER || category == LETTER_NUMBER || category == OTHER_NUMBER
        || category == UPPERCASE_LETTER || category == LOWERCASE_LETTER
        || category == TITLECASE_LETTER || category == MODIFIER_LETTER
        || category == OTHER_LETTER)
}

/// A character from `'0'` to `'9'`.
#[derive(Debug, Clone, Copy, PartialEq, Eq, Hash)]
pub struct AsciiDigit(char);

impl View for AsciiDigit {
    type V = char;

    closed spec fn view(&self) -> char {
        self.0
    }
}

impl AsciiDigit {
    #[verifier::type_invariant]
    spec fn is_ascii_digit(self) -> bool {
        '0' <= self.0 <= '9'
    }

    pub fn new(c: char) -> (r: AsciiDigit)
        requires
            '0' <= c <= '9',
        ensures
            r@ == c,
    {
        AsciiDigit(c)
    }
}

/// The zero of the family of `v`: the first range of `ranges` from index `k`
/// on that holds `v` is cut into blocks of ten from its start, and the zero is
/// its start plus the index of `v` in it divided by ten.
pub open spec fn family_zero_in(v: u32, ranges: Seq<(u32, u32)>, k: int) -> Option<int>
    decreases ranges.len() - k,
{
    if k < 0 || k >= ranges.len() {
        None
    } else if ranges[k].0 <= v <= ranges[k].1 {
        Some(ranges[k].0 + (v - ranges[k].0) / 10)
    } else {
        family_zero_in(v, ranges, k + 1)
    }
}

/// Whether the ten code points from `z` on are all characters.
pub open spec fn is_family_zero(z: int) -> bool {
    0 <= z && z + 9 <= 0x10FFFF && (z + 9 < 0xD800 || 0xE000 <= z)
}

/// The code point of the zero of the decimal digit family of `c`, if `c` is a
/// decimal digit.
pub open spec fn family_zero(c: char) -> Option<int> {
    match family_zero_in(c as u32, category_ranges(DECIMAL_NUMBER), 0) {
        Some(z) => if is_family_zero(z) { Some(z) } else { None },
        None => None,
    }
}

/// The decimal digits of one script, given by the family's zero.
#[derive(Debug, Clone, Copy, PartialEq, Eq, Hash)]
pub struct DigitFamily(char);

impl View for DigitFamily {
    type V = int;

    /// The code point of the family's zero.
    closed spec fn view(&self) -> int {
        self.0 as u32 as int
    }
}

impl DigitFamily {
    #[verifier::type_invariant]
    spec fn has_ten_digits(self) -> bool {
        is_family_zero(self.0 as u32 as int)
    }

    /// The family of the decimal digit `c`, or `None` where `c` is none. The
    /// range of decimal digits that holds `c` is cut into blocks of ten from
    /// its start; a block whose ten code points are not all characters makes
    /// no family.
    pub fn new(c: char) -> (r: Option<DigitFamily>)
        ensures
            match family_zero(c) {
                Some(z) => r is Some && r->0@ == z,
                None => r is None,
            },
    {
        let ranges = ranges_of_category(DECIMAL_NUMBER);
        let v = c as u32;
        let mut k: usize = 0;
        while k < ranges.len()
            invariant
                0 <= k <= ranges@.len(),
                v == c as u32,
                ranges@ == category_ranges(DECIMAL_NUMBER),
                family_zero_in(v, ranges@, 0) == family_zero_in(v, ranges@, k as int),
            decreases ranges.len() - k,
        {
            let (start, end) = ranges[k];
            if start <= v && v <= end {
                let zero = (v - start) / 10 + start;
                if zero <= 0x10FFFF - 9 && (zero + 9 < 0xD800 || 0xE000 <= zero) {
                    let z = char_from_u32(zero).unwrap();
                    return Some(DigitFamily(z));
                }
                return None;
            }
            k += 1;
        }
        None
    }

    /// The zero of this family.
    pub fn zero(&self) -> (r: char)
        ensures
            r as u32 == self@,
    {
        self.0
    }

    /// The digit of this family that stands for `d`.
    pub fn digit(&self, d: AsciiDigit) -> (r: char)
        ensures
            r as u32 == self@ + (d@ as u32 - '0' as u32),
    {
        proof {
            use_type_invariant(self);
            use_type_invariant(d);
        }
        let num = d.0 as u32 - '0' as u32;
        let r = char_from_u32(num + self.0 as u32).unwrap();
        r
    }
}

} // verus!
