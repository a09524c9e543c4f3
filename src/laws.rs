use vstd::prelude::*;

use vstd::arithmetic::div_mod::lemma_fundamental_div_mod_converse;

use crate::bigint::{decimal_digits, is_ascii_numeral, lemma_decimal_digits_are_ascii, magnitude};
use crate::digit::family_zero;
use crate::format_integer::{
    digits_before, formatted, formatted_integer, laid_out, lemma_stops_at_unique, padded_digits,
    placed_char, placed_len, stops_at, transliterate, Picture,
};
use crate::pattern::{
    classify, count_mandatory, is_mandatory_char, is_regular, is_separator_at, is_valid_picture,
    is_well_formed, lemma_separator_between_digits, pattern_of, sign_at, signs_of, Error,
    PatternView, Sign,
};

verus! {

proof fn lemma_digits_before_monotonic(pv: PatternView, a: int, b: int)
    requires
        0 <= a <= b,
    ensures
        digits_before(pv, a) <= digits_before(pv, b),
    decreases b - a,
{
    if a < b {
        lemma_digits_before_monotonic(pv, a, b - 1);
    }
}

/// Where the first `bound` signs take at least `n` digits, laying out `n`
/// digits stops within them.
proof fn lemma_stop_within(pv: PatternView, n: nat, bound: nat)
    requires
        digits_before(pv, bound as int) >= n,
    ensures
        exists|len: nat| len <= bound && stops_at(pv, n, len),
    decreases bound,
{
    if bound == 0 {
        assert(stops_at(pv, n, 0));
    } else if digits_before(pv, bound - 1) >= n {
        lemma_stop_within(pv, n, (bound - 1) as nat);
    } else {
        assert forall|k: int| 0 <= k < bound implies #[trigger] digits_before(pv, k) < n by {
            lemma_digits_before_monotonic(pv, k, bound - 1);
        }
        assert(stops_at(pv, n, bound));
    }
}

proof fn lemma_half_are_digits(pv: PatternView, k: nat)
    requires
        is_well_formed(pv),
    ensures
        digits_before(pv, 2 * k as int) >= k,
    decreases k,
{
    if k > 0 {
        let j = 2 * (k - 1) as int;
        lemma_half_are_digits(pv, (k - 1) as nat);
        if sign_at(pv, j) is GroupSeparator {
            lemma_separator_between_digits(pv, j);
        }
        assert(digits_before(pv, j + 1) >= digits_before(pv, j));
        assert(digits_before(pv, j + 2) >= digits_before(pv, j) + 1);
        assert(j + 2 == 2 * k as int);
    }
}

/// On the stream of any pattern a picture string gives, laying out any number
/// of digits comes to an end.
pub proof fn lemma_layout_ends(pv: PatternView, n: nat)
    requires
        is_well_formed(pv),
    ensures
        stops_at(pv, n, placed_len(pv, n)),
{
    lemma_half_are_digits(pv, n);
    lemma_stop_within(pv, n, 2 * n);
}

/// Parsing is a function of the picture string: two parses of the same string
/// both fail, or both succeed with equal pictures.
pub proof fn lemma_parse_is_deterministic(
    s: Seq<char>,
    first: Result<Picture, Error>,
    second: Result<Picture, Error>,
)
    requires
        first is Ok <==> is_valid_picture(s),
        first matches Ok(p) ==> p@ == pattern_of(s),
        first matches Err(e) ==> e == Error::InvalidPictureString,
        second is Ok <==> is_valid_picture(s),
        second matches Ok(p) ==> p@ == pattern_of(s),
        second matches Err(e) ==> e == Error::InvalidPictureString,
    ensures
        first is Ok <==> second is Ok,
        first matches Ok(p) ==> (second matches Ok(q) && p@ == q@),
        first is Err ==> first == second,
{
}

proof fn lemma_count_all_mandatory(s: Seq<Sign>)
    requires
        forall|i: int| 0 <= i < s.len() ==> #[trigger] s[i] is MandatoryDigit,
    ensures
        count_mandatory(s) == s.len(),
    decreases s.len(),
{
    if s.len() > 0 {
        assert forall|i: int| 0 <= i < s.drop_first().len() implies #[trigger] s.drop_first()[i] is MandatoryDigit by {
            assert(s.drop_first()[i] == s[i + 1]);
        }
        lemma_count_all_mandatory(s.drop_first());
    }
}

proof fn lemma_digits_before_all_digits(pv: PatternView, k: int)
    requires
        0 <= k,
        forall|t: int| 0 <= t < k ==> !(#[trigger] sign_at(pv, t) is GroupSeparator),
    ensures
        digits_before(pv, k) == k,
    decreases k,
{
    if k > 0 {
        lemma_digits_before_all_digits(pv, k - 1);
    }
}

/// The signs of a picture of digits of the ASCII family.
pub open spec fn is_ascii_digit_picture(p: Seq<char>) -> bool {
    forall|i: int|
        0 <= i < p.len() ==> is_mandatory_char(#[trigger] p[i]) && family_zero(p[i]) == Some(
            '0' as u32 as int,
        )
}

proof fn lemma_ascii_digit_pattern(p: Seq<char>)
    requires
        is_ascii_digit_picture(p),
    ensures
        is_valid_picture(p),
        pattern_of(p) == (PatternView::NonRegular {
            signs: signs_of(p),
            mandatory_max: p.len(),
            family: if p.len() > 0 {
                Some('0' as u32 as int)
            } else {
                None
            },
        }),
        forall|i: int| 0 <= i < p.len() ==> #[trigger] signs_of(p)[i] is MandatoryDigit,
{
    let s = signs_of(p);
    assert forall|i: int| 0 <= i < s.len() implies #[trigger] s[i] is MandatoryDigit by {
        assert(is_mandatory_char(p[i]));
    }
    assert forall|i: int, j: int| 0 <= j < i < p.len() && #[trigger] p[i] == '#' implies !is_mandatory_char(
        #[trigger] p[j],
    ) by {
        assert(is_mandatory_char(p[i]));
    }
    assert(!is_regular(s)) by {
        if is_regular(s) {
            let i = choose|i: int| is_separator_at(s, i);
            assert(s[i] is MandatoryDigit);
        }
    }
    lemma_count_all_mandatory(s);
    if p.len() > 0 {
        assert(is_mandatory_char(p[0]));
    }
}

/// On a stream of digit signs only, with the ASCII family or none, the digits
/// are laid out as they are.
proof fn lemma_digit_stream_layout(pv: PatternView, d: Seq<char>)
    requires
        is_ascii_numeral(d),
        pv.family() == Some('0' as u32 as int) || pv.family() is None,
        forall|t: int| 0 <= t ==> !(#[trigger] sign_at(pv, t) is GroupSeparator),
    ensures
        laid_out(pv, d) == d,
{
    let n = d.len();
    lemma_digits_before_all_digits(pv, n as int);
    assert forall|k: int| 0 <= k < n implies #[trigger] digits_before(pv, k) < n by {
        lemma_digits_before_all_digits(pv, k);
    }
    assert(stops_at(pv, n, n));
    lemma_stops_at_unique(pv, n, placed_len(pv, n), n);
    assert forall|k: int| 0 <= k < n implies #[trigger] placed_char(pv, d, k) == d[k] by {
        lemma_digits_before_all_digits(pv, k);
        assert('0' <= d[k] <= '9');
        vstd::utf8::char_u32_cast(d[k], d[k] as u32);
    }
    assert(laid_out(pv, d) =~= d);
}

/// A picture made only of digits of the ASCII family (`'0'` to `'9'`)
/// formats an integer as its decimal numeral, zero-padded to as many digits as
/// the picture has, with `-` first where the integer is negative.
#[verifier::rlimit(30)]
pub proof fn lemma_ascii_digit_picture_pads(p: Seq<char>, v: int)
    requires
        is_ascii_digit_picture(p),
    ensures
        is_valid_picture(p),
        formatted_integer(pattern_of(p), v) == (if v < 0 {
            seq!['-']
        } else {
            Seq::empty()
        }) + Seq::new(
            if p.len() > decimal_digits(magnitude(v)).len() {
                (p.len() - decimal_digits(magnitude(v)).len()) as nat
            } else {
                0
            },
            |k: int| '0',
        ) + decimal_digits(magnitude(v)),
{
    lemma_ascii_digit_pattern(p);
    let s = signs_of(p);
    let pv = pattern_of(p);
    let digits = decimal_digits(magnitude(v));
    lemma_decimal_digits_are_ascii(magnitude(v));
    let d = padded_digits(digits, p.len());
    assert forall|t: int| 0 <= t implies !(#[trigger] sign_at(pv, t) is GroupSeparator) by {
        if t < s.len() {
            assert(s[s.len() - 1 - t] is MandatoryDigit);
        }
    }
    assert forall|k: int| 0 <= k < d.len() implies '0' <= #[trigger] d[k] <= '9' by {
        if k < digits.len() {
            assert(d[k] == digits[digits.len() - 1 - k]);
        }
    }
    lemma_digit_stream_layout(pv, d);
    let sign: Seq<char> = if v < 0 { seq!['-'] } else { Seq::empty() };
    let zeros = Seq::new(
        if p.len() > digits.len() { (p.len() - digits.len()) as nat } else { 0 },
        |k: int| '0',
    );
    assert(d.reverse() =~= zeros + digits);
    assert(sign + (zeros + digits) =~= sign + zeros + digits);
}

/// `groups` groups of `group_size` mandatory digits, left to right, with the
/// separator `separator` between each two.
pub open spec fn repeated_group(separator: char, group_size: nat, groups: nat) -> Seq<Sign>
    decreases groups,
{
    let group = Seq::new(group_size, |i: int| Sign::MandatoryDigit);
    if groups <= 1 {
        group
    } else {
        group + seq![Sign::GroupSeparator(separator)] + repeated_group(
            separator,
            group_size,
            (groups - 1) as nat,
        )
    }
}

proof fn lemma_repeated_group_len(separator: char, group_size: nat, groups: nat)
    requires
        groups >= 1,
    ensures
        repeated_group(separator, group_size, groups).len() == groups * (group_size + 1) - 1,
    decreases groups,
{
    if groups > 1 {
        lemma_repeated_group_len(separator, group_size, (groups - 1) as nat);
        assert(groups * (group_size + 1) == (groups - 1) * (group_size + 1) + (group_size + 1))
            by (nonlinear_arith);
    } else {
        assert(groups * (group_size + 1) == group_size + 1) by (nonlinear_arith)
            requires
                groups == 1,
        ;
    }
}

/// Within its length, the stream of the repeated group is that of the
/// regular pattern.
proof fn lemma_repeated_group_signs(
    separator: char,
    group_size: nat,
    groups: nat,
    mandatory_max: nat,
    family: Option<int>,
    k: int,
)
    requires
        group_size >= 1,
        groups >= 1,
        0 <= k < groups * (group_size + 1) - 1,
    ensures
        sign_at(
            PatternView::NonRegular {
                signs: repeated_group(separator, group_size, groups),
                mandatory_max,
                family,
            },
            k,
        ) == sign_at(
            PatternView::Regular { separator, group_size, mandatory_max, family },
            k,
        ),
    decreases groups,
{
    let m = group_size as int + 1;
    let e = repeated_group(separator, group_size, groups);
    lemma_repeated_group_len(separator, group_size, groups);
    if groups == 1 {
        assert(groups * (group_size + 1) == m) by (nonlinear_arith)
            requires
                groups == 1,
                m == group_size + 1,
        ;
        assert(k == 0 * m + k) by (nonlinear_arith);
        lemma_fundamental_div_mod_converse(k, m, 0, k);
    } else {
        let rest = repeated_group(separator, group_size, (groups - 1) as nat);
        lemma_repeated_group_len(separator, group_size, (groups - 1) as nat);
        let l = rest.len() as int;
        assert(l == (groups - 1) * m - 1);
        if k < l {
            lemma_repeated_group_signs(separator, group_size, (groups - 1) as nat, mandatory_max, family, k);
            assert(e[e.len() - 1 - k] == rest[l - 1 - k]);
        } else {
            let t = k - l;
            assert(0 <= t <= group_size);
            if t == 0 {
                assert(e[e.len() - 1 - k] == Sign::GroupSeparator(separator));
                assert(k == (groups - 2) * m + group_size) by (nonlinear_arith)
                    requires
                        k == l,
                        l == (groups - 1) * m - 1,
                        m == group_size + 1,
                ;
                lemma_fundamental_div_mod_converse(k, m, groups - 2, group_size as int);
            } else {
                assert(e[e.len() - 1 - k] == Sign::MandatoryDigit);
                assert(k == (groups - 1) * m + (t - 1)) by (nonlinear_arith)
                    requires
                        k == l + t,
                        l == (groups - 1) * m - 1,
                ;
                lemma_fundamental_div_mod_converse(k, m, groups - 1, t - 1);
            }
        }
    }
}

/// The number of digit signs in the first `q * (g + 1) + r` signs of a
/// regular stream with groups of `g`.
proof fn lemma_regular_digits_before(pv: PatternView, q: nat, r: nat)
    requires
        pv is Regular,
        pv->Regular_group_size >= 1,
        r <= pv->Regular_group_size,
    ensures
        digits_before(pv, q * (pv->Regular_group_size as int + 1) + r) == q * pv->Regular_group_size
            + r,
    decreases q, r,
{
    let g = pv->Regular_group_size as int;
    let m = g + 1;
    let k = q * m + r;
    if r > 0 {
        lemma_regular_digits_before(pv, q, (r - 1) as nat);
        lemma_fundamental_div_mod_converse(k - 1, m, q as int, r - 1);
        assert(sign_at(pv, k - 1) is MandatoryDigit);
    } else if q > 0 {
        lemma_regular_digits_before(pv, (q - 1) as nat, g as nat);
        assert(k == (q - 1) * m + g + 1) by (nonlinear_arith)
            requires
                m == g + 1,
                k == q * m + r,
                r == 0,
        ;
        assert(q * g == (q - 1) * g + g) by (nonlinear_arith);
        lemma_fundamental_div_mod_converse(k - 1, m, q - 1, g);
        assert(sign_at(pv, k - 1) is GroupSeparator);
    } else {
        assert(k == 0) by (nonlinear_arith)
            requires
                k == q * m + r,
                q == 0,
                r == 0,
        ;
    }
}

/// A regular pattern formats as the pattern that spells out its group often
/// enough to hold every digit, with the same mandatory digits and family: being
/// regular changes nothing but how the stream is kept.
pub proof fn lemma_regular_is_repeated_group(
    separator: char,
    group_size: nat,
    mandatory_max: nat,
    family: Option<int>,
    negative: bool,
    digits: Seq<char>,
    groups: nat,
)
    requires
        group_size >= 1,
        groups >= 1,
        groups * group_size >= digits.len(),
        groups * group_size >= mandatory_max,
    ensures
        formatted(
            PatternView::Regular { separator, group_size, mandatory_max, family },
            negative,
            digits,
        ) == formatted(
            PatternView::NonRegular {
                signs: repeated_group(separator, group_size, groups),
                mandatory_max,
                family,
            },
            negative,
            digits,
        ),
{
    let reg = PatternView::Regular { separator, group_size, mandatory_max, family };
    let exp = PatternView::NonRegular {
        signs: repeated_group(separator, group_size, groups),
        mandatory_max,
        family,
    };
    let d = padded_digits(digits, mandatory_max);
    let n = d.len();
    let bound = groups * (group_size + 1) - 1;
    assert(bound == (groups - 1) * (group_size + 1) + group_size) by (nonlinear_arith)
        requires
            bound == groups * (group_size + 1) - 1,
    ;
    assert(bound >= 0) by (nonlinear_arith)
        requires
            groups >= 1,
            bound == groups * (group_size + 1) - 1,
    ;
    assert(groups * group_size == (groups - 1) * group_size + group_size) by (nonlinear_arith);
    lemma_regular_digits_before(reg, (groups - 1) as nat, group_size);
    assert(digits_before(reg, bound) >= n);
    lemma_stop_within(reg, n, bound as nat);
    let len = choose|len: nat| len <= bound && stops_at(reg, n, len);
    assert forall|k: int| 0 <= k < bound implies #[trigger] sign_at(exp, k) == sign_at(reg, k) by {
        lemma_repeated_group_signs(separator, group_size, groups, mandatory_max, family, k);
    }
    assert forall|k: int| 0 <= k <= bound implies #[trigger] digits_before(exp, k) == digits_before(
        reg,
        k,
    ) by {
        lemma_digits_before_agree(exp, reg, k, bound as int);
    }
    assert(stops_at(exp, n, len));
    lemma_stops_at_unique(reg, n, placed_len(reg, n), len);
    lemma_stops_at_unique(exp, n, placed_len(exp, n), len);
    assert(laid_out(reg, d) =~= laid_out(exp, d));
}

proof fn lemma_digits_before_agree(a: PatternView, b: PatternView, k: int, bound: int)
    requires
        0 <= k <= bound,
        forall|t: int| 0 <= t < bound ==> #[trigger] sign_at(a, t) == sign_at(b, t),
    ensures
        digits_before(a, k) == digits_before(b, k),
    decreases k,
{
    if k > 0 {
        lemma_digits_before_agree(a, b, k - 1, bound);
        assert(sign_at(a, k - 1) == sign_at(b, k - 1));
    }
}

} // verus!
