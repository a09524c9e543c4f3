use vstd::prelude::*;

use ibig::IBig;

use crate::bigint::{
    abs, decimal_digits, ibig_value, is_ascii_numeral, is_negative, lemma_decimal_digits_are_ascii,
    magnitude, to_decimal_string,
};
use crate::digit::AsciiDigit;
use crate::pattern::{
    family_view, is_valid_picture, is_well_formed, lemma_separator_between_digits, pattern_of,
    sign_at, Error, Pattern, PatternView, Sign,
};
use crate::text::{chars_of, string_from_chars};

verus! {

/// The number of digit signs among the first `k` signs of the stream of `pv`.
pub open spec fn digits_before(pv: PatternView, k: int) -> nat
    decreases k,
{
    if k <= 0 {
        0
    } else {
        digits_before(pv, k - 1) + (if sign_at(pv, k - 1) is GroupSeparator {
            0nat
        } else {
            1nat
        })
    }
}

/// Laying out `n` digits on the stream of `pv` takes its first `len` signs:
/// the last of them takes the last digit.
pub open spec fn stops_at(pv: PatternView, n: nat, len: nat) -> bool {
    &&& digits_before(pv, len as int) == n
    &&& forall|k: int| 0 <= k < len ==> #[trigger] digits_before(pv, k) < n
}

/// How many signs of the stream of `pv` laying out `n` digits takes.
pub open spec fn placed_len(pv: PatternView, n: nat) -> nat {
    choose|len: nat| stops_at(pv, n, len)
}

/// The digit of the family with zero `family` that stands for the ASCII digit
/// `c`; `c` itself where there is no family.
pub open spec fn transliterate(family: Option<int>, c: char) -> char {
    match family {
        Some(z) => ((z + (c as u32 - '0' as u32)) as u32) as char,
        None => c,
    }
}

/// What the sign at position `k` of the stream puts out, `d` being the
/// digits least significant first.
pub open spec fn placed_char(pv: PatternView, d: Seq<char>, k: int) -> char {
    match sign_at(pv, k) {
        Sign::GroupSeparator(c) => c,
        _ => transliterate(pv.family(), d[digits_before(pv, k) as int]),
    }
}

/// The digits `d`, least significant first, laid out on the stream of `pv`,
/// least significant first.
pub open spec fn laid_out(pv: PatternView, d: Seq<char>) -> Seq<char> {
    Seq::new(placed_len(pv, d.len()), |k: int| placed_char(pv, d, k))
}

/// The digits of the numeral `digits`, least significant first, followed by
/// as many zeros as make them `mandatory_max` long.
pub open spec fn padded_digits(digits: Seq<char>, mandatory_max: nat) -> Seq<char> {
    let zeros: nat = if mandatory_max > digits.len() {
        (mandatory_max - digits.len()) as nat
    } else {
        0
    };
    digits.reverse() + Seq::new(zeros, |k: int| '0')
}

/// The numeral `digits`, with a sign where `negative`, formatted by `pv`.
pub open spec fn formatted(pv: PatternView, negative: bool, digits: Seq<char>) -> Seq<char> {
    let out = laid_out(pv, padded_digits(digits, pv.mandatory_max()));
    (if negative {
        seq!['-']
    } else {
        Seq::empty()
    }) + out.reverse()
}

/// The integer `v` formatted by `pv`.
pub open spec fn formatted_integer(pv: PatternView, v: int) -> Seq<char> {
    formatted(pv, v < 0, decimal_digits(magnitude(v)))
}

pub proof fn lemma_stops_at_unique(pv: PatternView, n: nat, a: nat, b: nat)
    requires
        stops_at(pv, n, a),
        stops_at(pv, n, b),
    ensures
        a == b,
{
    if a < b {
        assert(digits_before(pv, a as int) < n);
    } else if b < a {
        assert(digits_before(pv, b as int) < n);
    }
}

proof fn lemma_placed_len(pv: PatternView, n: nat, len: nat)
    requires
        stops_at(pv, n, len),
    ensures
        placed_len(pv, n) == len,
{
    lemma_stops_at_unique(pv, n, placed_len(pv, n), len);
}

/// A parsed picture string.
#[derive(Debug, PartialEq)]
pub struct Picture {
    pattern: Pattern,
}

impl View for Picture {
    type V = PatternView;

    closed spec fn view(&self) -> PatternView {
        self.pattern@
    }
}

impl Picture {
    /// Parses a picture string: `#` an optional digit, a decimal digit a
    /// mandatory one, anything but a letter or number a group separator.
    pub fn parse(picture: &str) -> (r: Result<Picture, Error>)
        ensures
            r is Ok <==> is_valid_picture(picture@),
            r matches Ok(p) ==> p@ == pattern_of(picture@),
            r matches Err(e) ==> e == Error::InvalidPictureString,
    {
        match Pattern::new(picture) {
            Ok(pattern) => Ok(Picture { pattern }),
            Err(e) => Err(e),
        }
    }

    /// Formats the decimal numeral `digits`, negative where `negative` says so.
    pub fn format_decimal(&self, negative: bool, digits: &str) -> (r: String)
        requires
            is_ascii_numeral(digits@),
        ensures
            r@ == formatted(self@, negative, digits@),
    {
        let ghost pv = self@;
        let numeral = chars_of(digits);
        let n = numeral.len();
        let mandatory_max = self.pattern.mandatory_digit_max();
        let zeros = if mandatory_max > n {
            mandatory_max - n
        } else {
            0
        };
        // the digits, least significant first, then the zero padding
        let mut d: Vec<char> = Vec::new();
        let mut i: usize = n;
        while i > 0
            invariant
                numeral@ == digits@,
                n == numeral@.len(),
                0 <= i <= n,
                d@.len() == n - i,
                forall|k: int| 0 <= k < n - i ==> d@[k] == numeral@[n - 1 - k],
            decreases i,
        {
            i -= 1;
            d.push(numeral[i]);
        }
        let mut z: usize = 0;
        while z < zeros
            invariant
                0 <= z <= zeros,
                d@.len() == n + z,
                forall|k: int| 0 <= k < n ==> d@[k] == numeral@[n - 1 - k],
                forall|k: int| n <= k < n + z ==> d@[k] == '0',
            decreases zeros - z,
        {
            d.push('0');
            z += 1;
        }
        let ghost padded = padded_digits(digits@, pv.mandatory_max());
        assert(d@ =~= padded);
        assert(is_ascii_numeral(d@));
        let total = d.len();
        let family = self.pattern.digit_family();
        let mut stream = self.pattern.signs();
        let mut out: Vec<char> = Vec::new();
        let mut j: usize = 0;
        loop
            invariant
                d@ == padded,
                total == d@.len(),
                is_ascii_numeral(d@),
                is_well_formed(pv),
                family_view(family) == pv.family(),
                forall|t: int| 0 <= t ==> #[trigger] stream.ahead(t) == sign_at(pv, out@.len() + t),
                j == digits_before(pv, out@.len() as int),
                j <= total,
                forall|k: int| 0 <= k < out@.len() ==> #[trigger] out@[k] == placed_char(pv, d@, k),
                forall|k: int| 0 <= k < out@.len() ==> #[trigger] digits_before(pv, k) < total,
            ensures
                stops_at(pv, total as nat, out@.len()),
                forall|k: int| 0 <= k < out@.len() ==> #[trigger] out@[k] == placed_char(pv, d@, k),
            decreases 2 * (total - j) + (if sign_at(pv, out@.len() as int) is GroupSeparator {
                1int
            } else {
                0int
            }),
        {
            let ghost k = out@.len() as int;
            assert(stream.ahead(0) == sign_at(pv, k));
            assert(stream.ahead(1) == sign_at(pv, k + 1));
            // every sign stops the output once the digits have run out
            if j >= total {
                break;
            }
            let sign = stream.next();
            match sign {
                Sign::GroupSeparator(c) => {
                    proof {
                        lemma_separator_between_digits(pv, k);
                    }
                    out.push(c);
                },
                _ => {
                    let c = d[j];
                    let placed = match family {
                        Some(f) => {
                            let digit = f.digit(AsciiDigit::new(c));
                            proof {
                                vstd::utf8::char_u32_cast(digit, digit as u32);
                            }
                            digit
                        },
                        None => c,
                    };
                    out.push(placed);
                    j += 1;
                },
            }
            assert(out@[k] == placed_char(pv, d@, k));
        }
        proof {
            lemma_placed_len(pv, total as nat, out@.len());
        }
        assert(out@ =~= laid_out(pv, padded));
        if negative {
            out.push('-');
        }
        let ghost signed = out@;
        let len = out.len();
        let mut result: Vec<char> = Vec::new();
        let mut k: usize = len;
        while k > 0
            invariant
                out@ == signed,
                len == signed.len(),
                0 <= k <= len,
                result@.len() == len - k,
                forall|t: int| 0 <= t < len - k ==> result@[t] == signed[len - 1 - t],
            decreases k,
        {
            k -= 1;
            result.push(out[k]);
        }
        assert(result@ =~= formatted(pv, negative, digits@));
        string_from_chars(&result)
    }

    /// Formats the integer `i`.
    pub fn format(&self, i: IBig) -> (r: String)
        ensures
            r@ == formatted_integer(self@, ibig_value(i)),
    {
        let negative = is_negative(&i);
        let magnitude = abs(&i);
        let numeral = to_decimal_string(&magnitude);
        proof {
            lemma_decimal_digits_are_ascii(ibig_value(magnitude) as nat);
        }
        self.format_decimal(negative, numeral.as_str())
    }
}

/// Formats the integer `i` by the picture string `picture`.
pub fn format_integer(i: IBig, picture: &str) -> (r: Result<String, Error>)
    ensures
        r is Ok <==> is_valid_picture(picture@),
        r matches Ok(s) ==> s@ == formatted_integer(pattern_of(picture@), ibig_value(i)),
        r matches Err(e) ==> e == Error::InvalidPictureString,
{
    match Picture::parse(picture) {
        Ok(p) => Ok(p.format(i)),
        Err(e) => Err(e),
    }
}

} // verus!
