use vstd::prelude::*;

use crate::digit::{family_zero, is_group_separator, is_separator_char, DigitFamily};
use crate::text::chars_of;

verus! {

/// The error of a malformed picture string.
#[derive(Debug, PartialEq)]
pub enum Error {
    InvalidPictureString,
}

/// One position of a picture string.
#[derive(Debug, Clone, Copy, PartialEq, Eq, Structural)]
pub enum Sign {
    OptionalDigit,
    MandatoryDigit,
    GroupSeparator(char),
}

/// The sign that the picture character `c` stands for.
pub open spec fn sign_for(c: char) -> Sign {
    if c == '#' {
        Sign::OptionalDigit
    } else if is_separator_char(c) {
        Sign::GroupSeparator(c)
    } else {
        Sign::MandatoryDigit
    }
}

/// The signs of the picture `p`, left to right.
pub open spec fn signs_of(p: Seq<char>) -> Seq<Sign> {
    p.map_values(|c: char| sign_for(c))
}

pub open spec fn is_mandatory_char(c: char) -> bool {
    sign_for(c) is MandatoryDigit
}

/// The characters of `p` read as signs: no `#` follows a mandatory digit, and
/// every mandatory digit is a decimal digit, all of one family.
pub open spec fn chars_read(p: Seq<char>) -> bool {
    &&& forall|i: int, j: int|
        0 <= j < i < p.len() && #[trigger] p[i] == '#' ==> !is_mandatory_char(#[trigger] p[j])
    &&& forall|i: int| 0 <= i < p.len() && is_mandatory_char(#[trigger] p[i]) ==> family_zero(p[i]) is Some
    &&& forall|i: int, j: int|
        0 <= i < p.len() && 0 <= j < p.len() && is_mandatory_char(#[trigger] p[i])
            && is_mandatory_char(#[trigger] p[j]) ==> family_zero(p[i]) == family_zero(p[j])
}

/// The digit family of the picture `p`: that of its mandatory digits, if it has any.
pub open spec fn family_of(p: Seq<char>) -> Option<int> {
    if exists|i: int| 0 <= i < p.len() && is_mandatory_char(#[trigger] p[i]) {
        family_zero(p[choose|i: int| 0 <= i < p.len() && is_mandatory_char(#[trigger] p[i])])
    } else {
        None
    }
}

/// The signs stand where a picture allows them: no separator first, last, or
/// next to another, and no optional digit last.
pub open spec fn well_placed(s: Seq<Sign>) -> bool {
    &&& s.len() > 0 ==> !(s[0] is GroupSeparator)
    &&& forall|i: int|
        0 <= i < s.len() && #[trigger] s[i] is GroupSeparator ==> i + 1 < s.len() && !(s[i
            + 1] is GroupSeparator)
    &&& forall|i: int| 0 <= i < s.len() && #[trigger] s[i] is OptionalDigit ==> i + 1 < s.len()
}

/// Whether `p` is a valid picture string.
pub open spec fn is_valid_picture(p: Seq<char>) -> bool {
    chars_read(p) && well_placed(signs_of(p))
}

/// The number of mandatory digits among `s`.
pub open spec fn count_mandatory(s: Seq<Sign>) -> nat
    decreases s.len(),
{
    if s.len() == 0 {
        0
    } else {
        (if s[0] is MandatoryDigit { 1nat } else { 0nat }) + count_mandatory(s.drop_first())
    }
}

impl Pattern {
    /// Reads the characters of a picture into signs, with the family of its digits.
    pub fn parse(pattern: &str) -> (r: Result<(Vec<Sign>, Option<DigitFamily>), Error>)
        ensures
            r is Ok <==> chars_read(pattern@),
            r matches Ok((signs, family)) ==> {
                &&& signs@ == signs_of(pattern@)
                &&& family_of(pattern@) == family_view(family)
            },
            r matches Err(e) ==> e == Error::InvalidPictureString,
    {
        let chars = chars_of(pattern);
        let ghost p = pattern@;
        let mut signs: Vec<Sign> = Vec::new();
        let mut mandatory_seen = false;
        let mut digit_family: Option<DigitFamily> = None;
        let mut i: usize = 0;
        while i < chars.len()
            invariant
                chars@ == p,
                p == pattern@,
                0 <= i <= p.len(),
                signs@ == signs_of(p.subrange(0, i as int)),
                chars_read(p.subrange(0, i as int)),
                mandatory_seen <==> exists|k: int| 0 <= k < i && is_mandatory_char(#[trigger] p[k]),
                mandatory_seen <==> digit_family is Some,
                digit_family matches Some(f) ==> forall|k: int|
                    0 <= k < i && is_mandatory_char(#[trigger] p[k]) ==> family_zero(p[k]) == Some(f@),
            decreases p.len() - i,
        {
            let c = chars[i];
            let ghost q = p.subrange(0, i as int + 1);
            assert(q.subrange(0, i as int) == p.subrange(0, i as int));
            if c == '#' {
                if mandatory_seen {
                    let ghost k = choose|k: int| 0 <= k < i && is_mandatory_char(#[trigger] p[k]);
                    assert(q[i as int] == '#' && q[k] == p[k]);
                    return Err(Error::InvalidPictureString);
                }
                signs.push(Sign::OptionalDigit);
            } else if is_group_separator(c) {
                signs.push(Sign::GroupSeparator(c));
            } else {
                match DigitFamily::new(c) {
                    None => {
                        assert(q[i as int] == c);
                        return Err(Error::InvalidPictureString);
                    },
                    Some(found) => {
                        match digit_family {
                            Some(f) => {
                                let (z1, z2) = (found.zero(), f.zero());
                                if z1 != z2 {
                                    let ghost k = choose|k: int|
                                        0 <= k < i && is_mandatory_char(#[trigger] p[k]);
                                    assert(q[i as int] == c && q[k] == p[k]);
                                    proof {
                                        vstd::utf8::char_u32_cast(z1, z1 as u32);
                                        vstd::utf8::char_u32_cast(z2, z2 as u32);
                                    }
                                    return Err(Error::InvalidPictureString);
                                }
                            },
                            None => {
                                digit_family = Some(found);
                            },
                        }
                        mandatory_seen = true;
                        signs.push(Sign::MandatoryDigit);
                    },
                }
            }
            assert(signs@ =~= signs_of(q));
            i += 1;
        }
        assert(p.subrange(0, p.len() as int) == p);
        Ok((signs, digit_family))
    }

    /// Checks that the signs stand where a picture allows them.
    pub fn validate(pattern: &[Sign]) -> (r: Result<(), Error>)
        ensures
            r is Ok <==> well_placed(pattern@),
            r matches Err(e) ==> e == Error::InvalidPictureString,
    {
        let n = pattern.len();
        if n > 0 && matches!(pattern[0], Sign::GroupSeparator(_)) {
            return Err(Error::InvalidPictureString);
        }
        let mut i: usize = 0;
        while i < n
            invariant
                n == pattern@.len(),
                0 <= i <= n,
                n > 0 ==> !(pattern@[0] is GroupSeparator),
                forall|k: int|
                    0 <= k < i && #[trigger] pattern@[k] is GroupSeparator ==> k + 1 < n && !(
                    pattern@[k + 1] is GroupSeparator),
                forall|k: int| 0 <= k < i && #[trigger] pattern@[k] is OptionalDigit ==> k + 1 < n,
            decreases n - i,
        {
            match pattern[i] {
                Sign::OptionalDigit => {
                    if i + 1 >= n {
                        return Err(Error::InvalidPictureString);
                    }
                },
                Sign::GroupSeparator(_) => {
                    if i + 1 >= n || matches!(pattern[i + 1], Sign::GroupSeparator(_)) {
                        return Err(Error::InvalidPictureString);
                    }
                },
                Sign::MandatoryDigit => {},
            }
            i += 1;
        }
        Ok(())
    }
}

/// The index of the first separator of `s` from `i` on, or the length of `s`.
pub open spec fn next_separator(s: Seq<Sign>, i: int) -> int
    decreases s.len() - i,
{
    if i < 0 || i >= s.len() {
        s.len() as int
    } else if s[i] is GroupSeparator {
        i
    } else {
        next_separator(s, i + 1)
    }
}

proof fn lemma_next_separator_bounds(s: Seq<Sign>, i: int)
    requires
        0 <= i <= s.len(),
    ensures
        i <= next_separator(s, i) <= s.len(),
    decreases s.len() - i,
{
    if i < s.len() {
        lemma_next_separator_bounds(s, i + 1);
    }
}

proof fn lemma_group_after_separator(s: Seq<Sign>, i: int)
    requires
        well_placed(s),
        0 <= i < s.len(),
        s[i] is GroupSeparator,
    ensures
        group_after(s, i) >= 1,
{
    lemma_next_separator_bounds(s, i + 2);
}

pub open spec fn is_separator_at(s: Seq<Sign>, i: int) -> bool {
    0 <= i < s.len() && s[i] is GroupSeparator
}

/// The number of signs in the group right of the separator at `i`.
pub open spec fn group_after(s: Seq<Sign>, i: int) -> int {
    next_separator(s, i + 1) - i - 1
}

/// The signs have a separator, all their separators are the same character,
/// and every group right of a separator has the same size.
pub open spec fn is_regular(s: Seq<Sign>) -> bool {
    &&& exists|i: int| is_separator_at(s, i)
    &&& forall|i: int, j: int|
        #[trigger] is_separator_at(s, i) && #[trigger] is_separator_at(s, j) ==> s[i] == s[j]
            && group_after(s, i) == group_after(s, j)
}

pub open spec fn separator_char(sign: Sign) -> char {
    match sign {
        Sign::GroupSeparator(c) => c,
        _ => ' ',
    }
}

/// A pattern as a value: its signs, or for a regular one its repeated group;
/// the number of its mandatory digits; and the zero of its digit family.
pub enum PatternView {
    NonRegular { signs: Seq<Sign>, mandatory_max: nat, family: Option<int> },
    Regular { separator: char, group_size: nat, mandatory_max: nat, family: Option<int> },
}

impl PatternView {
    pub open spec fn mandatory_max(self) -> nat {
        match self {
            PatternView::NonRegular { mandatory_max, .. } => mandatory_max,
            PatternView::Regular { mandatory_max, .. } => mandatory_max,
        }
    }

    pub open spec fn family(self) -> Option<int> {
        match self {
            PatternView::NonRegular { family, .. } => family,
            PatternView::Regular { family, .. } => family,
        }
    }
}

/// The pattern that the signs `s` of a picture with digit family `family` make.
pub open spec fn classify(s: Seq<Sign>, family: Option<int>) -> PatternView {
    if is_regular(s) {
        let i = choose|i: int| is_separator_at(s, i);
        PatternView::Regular {
            separator: separator_char(s[i]),
            group_size: group_after(s, i) as nat,
            mandatory_max: count_mandatory(s),
            family,
        }
    } else {
        PatternView::NonRegular { signs: s, mandatory_max: count_mandatory(s), family }
    }
}

pub open spec fn family_view(f: Option<DigitFamily>) -> Option<int> {
    match f {
        Some(f) => Some(f@),
        None => None,
    }
}

/// A pattern kept as its signs.
#[derive(Debug, PartialEq)]
pub struct NonRegular {
    signs: Vec<Sign>,
    mandatory_digit_max: usize,
    digit_family: Option<DigitFamily>,
}

/// A pattern that is one group of digits, repeated to the left without end.
#[derive(Debug, PartialEq)]
pub struct Regular {
    group_separator: char,
    count: usize,
    mandatory_digit_max: usize,
    digit_family: Option<DigitFamily>,
}

impl View for Regular {
    type V = PatternView;

    closed spec fn view(&self) -> PatternView {
        PatternView::Regular {
            separator: self.group_separator,
            group_size: self.count as nat,
            mandatory_max: self.mandatory_digit_max as nat,
            family: family_view(self.digit_family),
        }
    }
}

impl Regular {
    #[verifier::type_invariant]
    spec fn has_digits(self) -> bool {
        self.count >= 1
    }
}

impl Pattern {
    /// Finds whether the signs repeat one group, reading them from the right.
    pub fn create_regular(signs: &[Sign], digit_family: Option<DigitFamily>) -> (r: Option<Regular>)
        requires
            well_placed(signs@),
        ensures
            r is Some <==> is_regular(signs@),
            r matches Some(reg) ==> classify(signs@, family_view(digit_family)) == reg@,
    {
        let ghost s = signs@;
        let n = signs.len();
        let mut last_separator: Option<char> = None;
        let mut last_count: Option<usize> = None;
        let mut count: usize = 0;
        let mut mandatory: usize = 0;
        let mut k: usize = n;
        let ghost mut witness: int = 0;
        while k > 0
            invariant
                s == signs@,
                n == s.len(),
                0 <= k <= n,
                count == next_separator(s, k as int) - k,
                count <= n - k,
                mandatory == count_mandatory(s.subrange(k as int, n as int)),
                mandatory <= n - k,
                (last_separator is Some) == (last_count is Some),
                well_placed(s),
                last_count matches Some(g) ==> g >= 1,
                last_separator is None ==> forall|i: int| k <= i < n ==> !is_separator_at(s, i),
                (last_separator is Some) ==> (k <= witness < n && is_separator_at(s, witness)),
                last_separator matches Some(c) ==> forall|i: int|
                    k <= i < n && #[trigger] is_separator_at(s, i) ==> s[i] == Sign::GroupSeparator(c)
                        && group_after(s, i) == last_count->0,
            decreases k,
        {
            let ghost sub = s.subrange(k - 1, n as int);
            assert(sub.drop_first() == s.subrange(k as int, n as int));
            match signs[k - 1] {
                Sign::GroupSeparator(c) => {
                    assert(is_separator_at(s, k - 1));
                    if let Some(last) = last_separator {
                        if last != c {
                            assert(is_separator_at(s, witness));
                            return None;
                        }
                    } else {
                        last_separator = Some(c);
                        proof {
                            witness = k - 1;
                        }
                    }
                    if let Some(last) = last_count {
                        if count != last {
                            assert(is_separator_at(s, witness));
                            return None;
                        }
                    } else {
                        proof {
                            lemma_group_after_separator(s, k - 1);
                        }
                        last_count = Some(count);
                    }
                    count = 0;
                },
                Sign::MandatoryDigit => {
                    mandatory += 1;
                    count += 1;
                },
                Sign::OptionalDigit => {
                    count += 1;
                },
            }
            k -= 1;
        }
        assert(s.subrange(0, n as int) == s);
        match last_separator {
            Some(c) => {
                assert(is_separator_at(s, witness));
                Some(
                    Regular {
                        group_separator: c,
                        count: last_count.unwrap(),
                        mandatory_digit_max: mandatory,
                        digit_family,
                    },
                )
            },
            None => None,
        }
    }
}

impl View for NonRegular {
    type V = PatternView;

    closed spec fn view(&self) -> PatternView {
        PatternView::NonRegular {
            signs: self.signs@,
            mandatory_max: self.mandatory_digit_max as nat,
            family: family_view(self.digit_family),
        }
    }
}

impl NonRegular {
    #[verifier::type_invariant]
    spec fn is_well_placed(self) -> bool {
        &&& well_placed(self.signs@)
        &&& self.mandatory_digit_max == count_mandatory(self.signs@)
    }

    /// A pattern kept as the signs `signs`.
    pub fn new(signs: Vec<Sign>, digit_family: Option<DigitFamily>) -> (r: NonRegular)
        requires
            well_placed(signs@),
        ensures
            r@ == (PatternView::NonRegular {
                signs: signs@,
                mandatory_max: count_mandatory(signs@),
                family: family_view(digit_family),
            }),
    {
        let ghost s = signs@;
        let n = signs.len();
        let mut mandatory: usize = 0;
        let mut k: usize = n;
        while k > 0
            invariant
                s == signs@,
                n == s.len(),
                0 <= k <= n,
                mandatory == count_mandatory(s.subrange(k as int, n as int)),
                mandatory <= n - k,
            decreases k,
        {
            assert(s.subrange(k - 1, n as int).drop_first() == s.subrange(k as int, n as int));
            if matches!(signs[k - 1], Sign::MandatoryDigit) {
                mandatory += 1;
            }
            k -= 1;
        }
        assert(s.subrange(0, n as int) == s);
        NonRegular { signs, mandatory_digit_max: mandatory, digit_family }
    }
}

/// A validated picture's signs, classified.
#[derive(Debug, PartialEq)]
pub enum Pattern {
    NonRegular(NonRegular),
    Regular(Regular),
}

impl View for Pattern {
    type V = PatternView;

    closed spec fn view(&self) -> PatternView {
        match self {
            Pattern::NonRegular(p) => p@,
            Pattern::Regular(p) => p@,
        }
    }
}

/// The pattern of the picture `p`.
pub open spec fn pattern_of(p: Seq<char>) -> PatternView {
    classify(signs_of(p), family_of(p))
}

impl Pattern {
    /// Parses, validates and classifies a picture string.
    pub fn new(pattern: &str) -> (r: Result<Pattern, Error>)
        ensures
            r is Ok <==> is_valid_picture(pattern@),
            r matches Ok(pat) ==> pat@ == pattern_of(pattern@),
            r matches Err(e) ==> e == Error::InvalidPictureString,
    {
        let (signs, digit_family) = match Pattern::parse(pattern) {
            Ok(parsed) => parsed,
            Err(e) => return Err(e),
        };
        match Pattern::validate(signs.as_slice()) {
            Ok(()) => {},
            Err(e) => return Err(e),
        }
        match Pattern::create_regular(signs.as_slice(), digit_family) {
            Some(regular) => Ok(Pattern::Regular(regular)),
            None => Ok(Pattern::NonRegular(NonRegular::new(signs, digit_family))),
        }
    }

    /// The number of mandatory digits of the picture.
    pub fn mandatory_digit_max(&self) -> (r: usize)
        ensures
            r == self@.mandatory_max(),
    {
        match self {
            Pattern::NonRegular(p) => p.mandatory_digit_max(),
            Pattern::Regular(p) => p.mandatory_digit_max(),
        }
    }

    /// The digit family of the picture.
    pub fn digit_family(&self) -> (r: Option<DigitFamily>)
        ensures
            family_view(r) == self@.family(),
    {
        match self {
            Pattern::NonRegular(p) => p.digit_family,
            Pattern::Regular(p) => p.digit_family,
        }
    }
}

/// The sign at position `k` of the endless stream of a pattern, counted
/// from the least significant digit: a kept list of signs read from its right
/// end and then optional digits, or the group repeated to the left.
pub open spec fn sign_at(pv: PatternView, k: int) -> Sign {
    match pv {
        PatternView::NonRegular { signs, .. } => {
            if 0 <= k < signs.len() {
                signs[signs.len() - 1 - k]
            } else {
                Sign::OptionalDigit
            }
        },
        PatternView::Regular { separator, group_size, .. } => {
            if k % (group_size as int + 1) < group_size {
                Sign::MandatoryDigit
            } else {
                Sign::GroupSeparator(separator)
            }
        },
    }
}

/// The patterns that a picture string can give.
pub open spec fn is_well_formed(pv: PatternView) -> bool {
    match pv {
        PatternView::NonRegular { signs, .. } => well_placed(signs),
        PatternView::Regular { group_size, .. } => group_size >= 1,
    }
}

/// In the stream of a well-formed pattern a separator comes after a digit
/// and before a digit.
pub proof fn lemma_separator_between_digits(pv: PatternView, k: int)
    requires
        is_well_formed(pv),
        0 <= k,
        sign_at(pv, k) is GroupSeparator,
    ensures
        !(sign_at(pv, k + 1) is GroupSeparator),
        k > 0 && !(sign_at(pv, k - 1) is GroupSeparator),
{
    match pv {
        PatternView::NonRegular { signs, .. } => {
            let n = signs.len();
            assert(signs[n - 1 - k] is GroupSeparator);
            if k + 1 < n {
                assert(signs[n - 1 - (k + 1)] is OptionalDigit || signs[n - 1 - (k + 1)] is MandatoryDigit
                    || signs[n - 1 - (k + 1)] is GroupSeparator);
            }
        },
        PatternView::Regular { group_size, .. } => {
            let m = group_size as int + 1;
            assert(k % m == group_size);
            vstd::arithmetic::div_mod::lemma_fundamental_div_mod(k, m);
            vstd::arithmetic::div_mod::lemma_fundamental_div_mod(k + 1, m);
            vstd::arithmetic::div_mod::lemma_fundamental_div_mod(k - 1, m);
            vstd::arithmetic::div_mod::lemma_mod_add_multiples_vanish(k + 1 - m, m);
            assert((k + 1) % m == 0) by (nonlinear_arith)
                requires
                    k % m == m - 1,
                    m >= 2,
                    k == m * (k / m) + k % m,
            {
                vstd::arithmetic::div_mod::lemma_mod_multiples_basic(k / m + 1, m);
            }
            assert((k - 1) % m == m - 2) by (nonlinear_arith)
                requires
                    k % m == m - 1,
                    m >= 2,
                    k == m * (k / m) + k % m,
            {
                vstd::arithmetic::div_mod::lemma_fundamental_div_mod_converse(k - 1, m, k / m, m - 2);
            }
        },
    }
}

/// The signs of a kept list, from its right end, then optional digits.
pub struct NonRegularIterator<'a> {
    signs: &'a Vec<Sign>,
    taken: usize,
}

impl<'a> NonRegularIterator<'a> {
    #[verifier::type_invariant]
    spec fn within(self) -> bool {
        self.taken <= self.signs@.len()
    }

    /// The sign that comes `i` places from now.
    pub closed spec fn ahead(self, i: int) -> Sign {
        let n = self.signs@.len();
        if 0 <= self.taken + i < n {
            self.signs@[n - 1 - (self.taken + i)]
        } else {
            Sign::OptionalDigit
        }
    }

    pub fn new(signs: &'a Vec<Sign>) -> (r: NonRegularIterator<'a>)
        ensures
            forall|i: int| 0 <= i ==> #[trigger] r.ahead(i) == (if i < signs@.len() {
                signs@[signs@.len() - 1 - i]
            } else {
                Sign::OptionalDigit
            }),
    {
        NonRegularIterator { signs, taken: 0 }
    }

    pub fn next(&mut self) -> (r: Sign)
        ensures
            r == old(self).ahead(0),
            forall|i: int| 0 <= i ==> #[trigger] final(self).ahead(i) == old(self).ahead(i + 1),
    {
        proof {
            use_type_invariant(&*self);
        }
        if self.taken < self.signs.len() {
            let sign = self.signs[self.signs.len() - 1 - self.taken];
            self.taken = self.taken + 1;
            sign
        } else {
            Sign::OptionalDigit
        }
    }
}

/// One group of digits and a separator, over and over.
pub struct RegularIterator {
    position: usize,
    group_separator: char,
    grouping_size: usize,
}

impl RegularIterator {
    #[verifier::type_invariant]
    spec fn within(self) -> bool {
        self.position <= self.grouping_size
    }

    /// The sign that comes `i` places from now.
    pub closed spec fn ahead(self, i: int) -> Sign {
        if (self.position + i) % (self.grouping_size as int + 1) < self.grouping_size {
            Sign::MandatoryDigit
        } else {
            Sign::GroupSeparator(self.group_separator)
        }
    }

    pub fn new(group_separator: char, grouping_size: usize) -> (r: RegularIterator)
        ensures
            forall|i: int| #[trigger] r.ahead(i) == (if i % (grouping_size as int + 1) < grouping_size {
                Sign::MandatoryDigit
            } else {
                Sign::GroupSeparator(group_separator)
            }),
    {
        RegularIterator { position: 0, grouping_size, group_separator }
    }

    pub fn next(&mut self) -> (r: Sign)
        ensures
            r == old(self).ahead(0),
            forall|i: int| 0 <= i ==> #[trigger] final(self).ahead(i) == old(self).ahead(i + 1),
    {
        proof {
            use_type_invariant(&*self);
        }
        let ghost before = *self;
        if self.position < self.grouping_size {
            self.position = self.position + 1;
            proof {
                assert(before.position as int % (before.grouping_size as int + 1) == before.position) by {
                    vstd::arithmetic::div_mod::lemma_small_mod(
                        before.position as nat,
                        (before.grouping_size + 1) as nat,
                    );
                }
                assert forall|i: int| 0 <= i implies #[trigger] self.ahead(i) == before.ahead(i + 1) by {
                    assert(self.position + i == before.position + (i + 1));
                }
            }
            Sign::MandatoryDigit
        } else {
            self.position = 0;
            proof {
                let m = before.grouping_size as int + 1;
                assert(before.position as int % m == before.position) by {
                    vstd::arithmetic::div_mod::lemma_small_mod(before.position as nat, m as nat);
                }
                assert forall|i: int| 0 <= i implies #[trigger] self.ahead(i) == before.ahead(i + 1) by {
                    vstd::arithmetic::div_mod::lemma_mod_add_multiples_vanish(i, m);
                    assert(before.position + (i + 1) == m + i);
                }
            }
            Sign::GroupSeparator(self.group_separator)
        }
    }
}

/// The endless stream of a pattern's signs, from the least significant digit.
pub enum Signs<'a> {
    NonRegular(NonRegularIterator<'a>),
    Regular(RegularIterator),
}

impl<'a> Signs<'a> {
    /// The sign that comes `i` places from now.
    pub open spec fn ahead(self, i: int) -> Sign {
        match self {
            Signs::NonRegular(it) => it.ahead(i),
            Signs::Regular(it) => it.ahead(i),
        }
    }

    pub fn next(&mut self) -> (r: Sign)
        ensures
            r == old(self).ahead(0),
            forall|i: int| 0 <= i ==> #[trigger] final(self).ahead(i) == old(self).ahead(i + 1),
    {
        match self {
            Signs::NonRegular(it) => it.next(),
            Signs::Regular(it) => it.next(),
        }
    }
}

impl Pattern {
    /// The stream of the pattern's signs, from the least significant digit.
    pub fn signs(&self) -> (r: Signs<'_>)
        ensures
            forall|i: int| 0 <= i ==> #[trigger] r.ahead(i) == sign_at(self@, i),
            is_well_formed(self@),
    {
        match self {
            Pattern::NonRegular(p) => {
                proof {
                    use_type_invariant(p);
                }
                Signs::NonRegular(p.signs())
            },
            Pattern::Regular(p) => {
                proof {
                    use_type_invariant(p);
                }
                Signs::Regular(p.signs())
            },
        }
    }
}

impl NonRegular {
    /// The stream of the signs, from the right end of the list, then optional
    /// digits.
    pub fn signs(&self) -> (r: NonRegularIterator<'_>)
        ensures
            forall|i: int| 0 <= i ==> #[trigger] r.ahead(i) == sign_at(self@, i),
    {
        NonRegularIterator::new(&self.signs)
    }

    pub fn mandatory_digit_max(&self) -> (r: usize)
        ensures
            r == self@.mandatory_max(),
    {
        self.mandatory_digit_max
    }
}

impl Regular {
    /// The stream of the group's signs, repeated.
    pub fn signs(&self) -> (r: RegularIterator)
        ensures
            forall|i: int| 0 <= i ==> #[trigger] r.ahead(i) == sign_at(self@, i),
    {
        RegularIterator::new(self.group_separator, self.count)
    }

    pub fn mandatory_digit_max(&self) -> (r: usize)
        ensures
            r == self@.mandatory_max(),
    {
        self.mandatory_digit_max
    }
}

} // verus!
