use vstd::prelude::*;

use ibig::IBig;

verus! {

#[verifier::external_type_specification]
#[verifier::external_body]
pub struct ExIBig(IBig);

/// The integer that a big integer holds.
pub uninterp spec fn ibig_value(i: IBig) -> int;

pub open spec fn digit_char(d: int) -> char {
    seq!['0', '1', '2', '3', '4', '5', '6', '7', '8', '9'][d]
}

/// The decimal numeral of `n`, most significant digit first, without leading
/// zeros.
pub open spec fn decimal_digits(n: nat) -> Seq<char>
    decreases n,
{
    if n < 10 {
        seq![digit_char(n as int)]
    } else {
        decimal_digits(n / 10).push(digit_char((n % 10) as int))
    }
}

/// The decimal numeral of `v`, with a leading `-` where `v` is negative.
pub open spec fn decimal_of(v: int) -> Seq<char> {
    if v < 0 {
        seq!['-'] + decimal_digits((-v) as nat)
    } else {
        decimal_digits(v as nat)
    }
}

pub open spec fn magnitude(v: int) -> nat {
    if v < 0 {
        (-v) as nat
    } else {
        v as nat
    }
}

/// Whether every character of `s` is one of `'0'` to `'9'`.
pub open spec fn is_ascii_numeral(s: Seq<char>) -> bool {
    forall|k: int| 0 <= k < s.len() ==> '0' <= #[trigger] s[k] <= '9'
}

pub proof fn lemma_decimal_digits_are_ascii(n: nat)
    ensures
        is_ascii_numeral(decimal_digits(n)),
        decimal_digits(n).len() >= 1,
    decreases n,
{
    if n >= 10 {
        lemma_decimal_digits_are_ascii(n / 10);
        let d = (n % 10) as int;
        assert('0' <= digit_char(d) <= '9');
        assert(is_ascii_numeral(decimal_digits(n))) by {
            assert forall|k: int| 0 <= k < decimal_digits(n).len() implies '0' <= #[trigger] decimal_digits(n)[k] <= '9' by {
                if k < decimal_digits(n / 10).len() {
                    assert(decimal_digits(n)[k] == decimal_digits(n / 10)[k]);
                }
            }
        }
    } else {
        assert('0' <= digit_char(n as int) <= '9');
    }
}

/// Relies on `num_traits::Signed::is_negative` for `IBig`: whether the value
/// is below zero.
#[verifier::external_body]
pub(crate) fn is_negative(i: &IBig) -> (r: bool)
    ensures
        r == (ibig_value(*i) < 0),
{
    num_traits::Signed::is_negative(i)
}

/// Relies on `num_traits::Signed::abs` for `IBig`: the absolute value.
#[verifier::external_body]
pub(crate) fn abs(i: &IBig) -> (r: IBig)
    ensures
        ibig_value(r) == magnitude(ibig_value(*i)),
{
    num_traits::Signed::abs(i)
}

/// Relies on `IBig`'s `Display` (through `ToString`): the decimal numeral of
/// the value, `-` first where it is negative.
#[verifier::external_body]
pub(crate) fn to_decimal_string(i: &IBig) -> (r: String)
    ensures
        r@ == decimal_of(ibig_value(*i)),
{
    i.to_string()
}

} // verus!
