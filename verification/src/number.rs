//! Decimal numbers with eighteen fractional digits.
//!
//! A `Number` is an integer count of units of `10^-18`, so sums, differences
//! and comparisons are exact, and a whole number within the 64-bit integers
//! stays whole however often it is read and written. Products and quotients
//! are cut after the eighteenth fractional digit. A result whose magnitude
//! reaches `2^64` is not a number: the operation answers `None`.

use vstd::prelude::*;
use crate::text::{chars_of, slice_of, text_of, Relation};

verus! {

broadcast use vstd::std_specs::vec::group_vec_axioms;

/// Units in one: `10^18`.
pub const SCALE: u128 = 1_000_000_000_000_000_000;

/// The magnitude, in units, that no number reaches: `2^64` ones.
pub const LIMIT: u128 = 18_446_744_073_709_551_616_000_000_000_000_000_000;

/// Units in a millionth: `10^12`.
pub const MILLIONTH: u128 = 1_000_000_000_000;

#[derive(Clone, Copy, Debug, PartialEq, Eq, Structural)]
pub struct Number {
    negative: bool,
    magnitude: u128,
}

/// The units of a number that may be absent.
pub open spec fn units_of(r: Option<Number>) -> Option<int> {
    match r {
        Some(n) => Some(n.units()),
        None => None,
    }
}

/// Strictly between `-LIMIT` and `LIMIT`.
pub open spec fn in_range(u: int) -> bool {
    -(LIMIT as int) < u < LIMIT as int
}

/// The absolute value.
pub open spec fn magnitude_of(u: int) -> nat {
    if u < 0 {
        (-u) as nat
    } else {
        u as nat
    }
}

/// A magnitude with its sign; zero has none.
pub open spec fn signed(negative: bool, magnitude: int) -> int {
    if negative {
        -magnitude
    } else {
        magnitude
    }
}

/// The sum, where it is a number.
pub open spec fn sum_of(a: int, b: int) -> Option<int> {
    if in_range(a + b) {
        Some(a + b)
    } else {
        None
    }
}

/// The difference, where it is a number.
pub open spec fn difference_of(a: int, b: int) -> Option<int> {
    if in_range(a - b) {
        Some(a - b)
    } else {
        None
    }
}

/// The product in units, cut towards zero.
pub open spec fn product_of(a: int, b: int) -> Option<int> {
    let m = (magnitude_of(a) * magnitude_of(b)) / (SCALE as nat);
    if m < LIMIT {
        Some(signed((a < 0) != (b < 0), m as int))
    } else {
        None
    }
}

/// The quotient in units, cut towards zero; none for a zero divisor.
pub open spec fn quotient_of(a: int, b: int) -> Option<int> {
    if b == 0 {
        None
    } else {
        let m = (magnitude_of(a) * (SCALE as nat)) / magnitude_of(b);
        if m < LIMIT {
            Some(signed((a < 0) != (b < 0), m as int))
        } else {
            None
        }
    }
}

/// Without fractional digits.
pub open spec fn is_whole(u: int) -> bool {
    u % (SCALE as int) == 0
}

/// The number as a signed 64-bit integer, where it is one.
pub open spec fn whole_i64(u: int) -> Option<i64> {
    if is_whole(u) && i64::MIN <= u / (SCALE as int) <= i64::MAX {
        Some((u / (SCALE as int)) as i64)
    } else {
        None
    }
}

/// The number as an unsigned 64-bit integer, where it is one.
pub open spec fn whole_u64(u: int) -> Option<u64> {
    if is_whole(u) && 0 <= u / (SCALE as int) <= u64::MAX {
        Some((u / (SCALE as int)) as u64)
    } else {
        None
    }
}

/// The order of two numbers.
pub open spec fn relation_of(a: int, b: int) -> Relation {
    if a < b {
        Relation::Before
    } else if a == b {
        Relation::Same
    } else {
        Relation::After
    }
}

/// The number rounded to six fractional digits, halves away from zero.
pub open spec fn rounded_to_millionths(u: int) -> Option<int> {
    let m = ((magnitude_of(u) + 500_000_000_000) / 1_000_000_000_000) * 1_000_000_000_000;
    if m < LIMIT {
        Some(signed(u < 0, m as int))
    } else {
        None
    }
}

pub open spec fn is_digit(c: char) -> bool {
    '0' <= c <= '9'
}

pub open spec fn digit_value(c: char) -> nat {
    (c as u8 - '0' as u8) as nat
}

pub open spec fn digit_char(d: nat) -> char {
    (('0' as u8) + (d % 10) as u8) as char
}

pub open spec fn all_digits(s: Seq<char>) -> bool {
    forall|i: int| 0 <= i < s.len() ==> is_digit(#[trigger] s[i])
}

/// The value of a run of decimal digits.
pub open spec fn digits_value(s: Seq<char>) -> nat
    decreases s.len(),
{
    if s.len() == 0 {
        0
    } else {
        digits_value(s.drop_last()) * 10 + digit_value(s.last())
    }
}

/// The decimal digits of `n`, without leading zeros.
pub open spec fn digits_of(n: nat) -> Seq<char>
    decreases n,
{
    if n < 10 {
        seq![digit_char(n)]
    } else {
        digits_of(n / 10).push(digit_char(n % 10))
    }
}

/// The last `width` decimal digits of `n`, with leading zeros.
pub open spec fn padded_digits(n: nat, width: nat) -> Seq<char>
    decreases width,
{
    if width == 0 {
        Seq::empty()
    } else {
        padded_digits(n / 10, (width - 1) as nat).push(digit_char(n % 10))
    }
}

/// The digits up to the last that is not zero.
pub open spec fn without_trailing_zeros(s: Seq<char>) -> Seq<char>
    decreases s.len(),
{
    if s.len() > 0 && s.last() == '0' {
        without_trailing_zeros(s.drop_last())
    } else {
        s
    }
}

/// The canonical text of a number: a minus sign for a negative one, the whole
/// part, and, where there is a fraction, a point and its digits up to the last
/// that is not zero.
pub open spec fn decimal_text(u: int) -> Seq<char> {
    let m = magnitude_of(u);
    let whole = digits_of(m / (SCALE as nat));
    let fraction = m % (SCALE as nat);
    let sign = if u < 0 {
        seq!['-']
    } else {
        Seq::<char>::empty()
    };
    if fraction == 0 {
        sign + whole
    } else {
        sign + whole + seq!['.'] + without_trailing_zeros(padded_digits(fraction, 18))
    }
}

/// The index of the first point in `s` at or after `i`, or its length.
pub open spec fn point_index(s: Seq<char>, i: int) -> int
    decreases s.len() - i,
{
    if 0 <= i < s.len() && s[i] != '.' {
        point_index(s, i + 1)
    } else {
        i
    }
}

/// The index of the first `e` or `E` in `s` at or after `i`, or its length.
pub open spec fn exponent_index(s: Seq<char>, i: int) -> int
    decreases s.len() - i,
{
    if 0 <= i < s.len() && s[i] != 'e' && s[i] != 'E' {
        exponent_index(s, i + 1)
    } else {
        i
    }
}

/// The units that the fractional digits `s` stand for from index `i` on;
/// digits after the first `width` do not count.
pub open spec fn fraction_value(s: Seq<char>, i: int, width: nat) -> nat
    decreases width,
{
    if width == 0 {
        0
    } else {
        let d = if 0 <= i < s.len() {
            digit_value(s[i])
        } else {
            0
        };
        d * pow10((width - 1) as nat) + fraction_value(s, i + 1, (width - 1) as nat)
    }
}

/// Ten to the power `e`.
pub open spec fn pow10(e: nat) -> nat
    decreases e,
{
    if e == 0 {
        1
    } else {
        10 * pow10((e - 1) as nat)
    }
}

/// The digits before and after the point of a mantissa: digits with at most
/// one point among them and at least one digit in all.
pub open spec fn mantissa_parts(m: Seq<char>) -> Option<(Seq<char>, Seq<char>)> {
    let dot = point_index(m, 0);
    let whole = m.subrange(0, dot);
    let fraction = if dot < m.len() {
        m.subrange(dot + 1, m.len() as int)
    } else {
        Seq::<char>::empty()
    };
    if !all_digits(whole) || !all_digits(fraction) || whole.len() + fraction.len() == 0 {
        None
    } else {
        Some((whole, fraction))
    }
}

/// The power of ten that an exponent spells: an optional sign and one to three
/// digits.
pub open spec fn exponent_value(t: Seq<char>) -> Option<int> {
    let signed_text = t.len() > 0 && (t[0] == '-' || t[0] == '+');
    let digits = if signed_text {
        t.subrange(1, t.len() as int)
    } else {
        t
    };
    if 1 <= digits.len() <= 3 && all_digits(digits) {
        Some(signed(signed_text && t[0] == '-', digits_value(digits) as int))
    } else {
        None
    }
}

/// The digits before the point once the point has moved `x` places to the right.
pub open spec fn shifted_whole(whole: Seq<char>, fraction: Seq<char>, x: int) -> Seq<char> {
    if x >= 0 {
        whole + Seq::new(
            x as nat,
            |i: int|
                if i < fraction.len() {
                    fraction[i]
                } else {
                    '0'
                },
        )
    } else if -x < whole.len() {
        whole.subrange(0, whole.len() + x)
    } else {
        Seq::<char>::empty()
    }
}

/// The digits after the point once the point has moved `x` places to the right.
pub open spec fn shifted_fraction(whole: Seq<char>, fraction: Seq<char>, x: int) -> Seq<char> {
    if x >= 0 {
        if x < fraction.len() {
            fraction.subrange(x, fraction.len() as int)
        } else {
            Seq::<char>::empty()
        }
    } else {
        Seq::new(
            (-x) as nat,
            |i: int|
                if whole.len() + x + i >= 0 {
                    whole[whole.len() + x + i]
                } else {
                    '0'
                },
        ) + fraction
    }
}

/// The magnitude, in units, of the decimal with the digits `whole` before the
/// point and `fraction` after it; fractional digits after the eighteenth do
/// not count.
pub open spec fn magnitude_from(whole: Seq<char>, fraction: Seq<char>) -> Option<nat> {
    let m = digits_value(whole) * (SCALE as nat) + fraction_value(fraction, 0, 18);
    if m < LIMIT {
        Some(m)
    } else {
        None
    }
}

/// The magnitude, in units, of an unsigned decimal literal: a mantissa, and
/// optionally `e` or `E` and an exponent.
pub open spec fn unsigned_decimal(s: Seq<char>) -> Option<nat> {
    let e = exponent_index(s, 0);
    let exponent = if e < s.len() {
        exponent_value(s.subrange(e + 1, s.len() as int))
    } else {
        Some(0int)
    };
    match (mantissa_parts(s.subrange(0, e)), exponent) {
        (Some((whole, fraction)), Some(x)) => magnitude_from(
            shifted_whole(whole, fraction, x),
            shifted_fraction(whole, fraction, x),
        ),
        _ => None,
    }
}

/// The units that a decimal literal with an optional sign stands for.
pub open spec fn parse_decimal(s: Seq<char>) -> Option<int> {
    if s.len() > 0 && (s[0] == '-' || s[0] == '+') {
        match unsigned_decimal(s.subrange(1, s.len() as int)) {
            Some(m) => Some(signed(s[0] == '-', m as int)),
            None => None,
        }
    } else {
        match unsigned_decimal(s) {
            Some(m) => Some(m as int),
            None => None,
        }
    }
}

proof fn lemma_digits_value_push(s: Seq<char>, c: char)
    ensures
        digits_value(s.push(c)) == digits_value(s) * 10 + digit_value(c),
{
    assert(s.push(c).drop_last() =~= s);
}

proof fn lemma_pow10_values()
    ensures
        pow10(0) == 1,
        pow10(1) == 10,
        pow10(2) == 100,
        pow10(3) == 1000,
        pow10(4) == 10000,
        pow10(5) == 100000,
        pow10(6) == 1000000,
        pow10(7) == 10000000,
        pow10(8) == 100000000,
        pow10(9) == 1000000000,
        pow10(10) == 10000000000,
        pow10(11) == 100000000000,
        pow10(12) == 1000000000000,
        pow10(13) == 10000000000000,
        pow10(14) == 100000000000000,
        pow10(15) == 1000000000000000,
        pow10(16) == 10000000000000000,
        pow10(17) == 100000000000000000,
        pow10(18) == 1000000000000000000,
{
    reveal_with_fuel(pow10, 20);
}

impl Number {
    #[verifier::type_invariant]
    spec fn valid(self) -> bool {
        &&& self.magnitude < LIMIT
        &&& self.magnitude == 0 ==> !self.negative
    }

    /// The number in billionths.
    pub closed spec fn units(self) -> int {
        signed(self.negative, self.magnitude as int)
    }

    /// The number nought.
    pub fn zero() -> (r: Number)
        ensures
            r.units() == 0,
    {
        Number { negative: false, magnitude: 0 }
    }

    /// The whole number `n`.
    pub fn from_u64(n: u64) -> (r: Number)
        ensures
            r.units() == n * SCALE,
    {
        let m: u128 = (n as u128) * SCALE;
        Number { negative: false, magnitude: m }
    }

    /// The whole number `n`.
    pub fn from_i64(n: i64) -> (r: Number)
        ensures
            r.units() == n * SCALE,
    {
        if n >= 0 {
            let m: u128 = (n as u128) * SCALE;
            Number { negative: false, magnitude: m }
        } else {
            let a: u128 = if n == i64::MIN {
                9_223_372_036_854_775_808u128
            } else {
                (-n) as u128
            };
            let m: u128 = a * SCALE;
            Number { negative: true, magnitude: m }
        }
    }

    /// One for true, nought for false.
    pub fn from_bool(b: bool) -> (r: Number)
        ensures
            r.units() == if b {
                SCALE as int
            } else {
                0
            },
    {
        if b {
            Number { negative: false, magnitude: SCALE }
        } else {
            Number { negative: false, magnitude: 0 }
        }
    }

    /// The number of `magnitude` billionths with the given sign, if it is one.
    fn from_parts(negative: bool, magnitude: u128) -> (r: Option<Number>)
        ensures
            r is Some <==> magnitude < LIMIT,
            r is Some ==> r->0.units() == signed(negative, magnitude as int),
    {
        if magnitude >= LIMIT {
            None
        } else if magnitude == 0 {
            Some(Number { negative: false, magnitude: 0 })
        } else {
            Some(Number { negative, magnitude })
        }
    }

    /// Whether the number is nought.
    pub fn is_zero(&self) -> (r: bool)
        ensures
            r == (self.units() == 0),
    {
        proof {
            use_type_invariant(self);
        }
        self.magnitude == 0
    }

    /// Whether the number has no fractional digits.
    pub fn is_integer(&self) -> (r: bool)
        ensures
            r == is_whole(self.units()),
    {
        proof {
            use_type_invariant(self);
            lemma_whole_magnitude(self.units());
            assert(magnitude_of(self.units()) == self.magnitude);
        }
        self.magnitude % SCALE == 0
    }

    /// The number as a signed 64-bit integer, where it is one.
    pub fn as_i64(&self) -> (r: Option<i64>)
        ensures
            r == whole_i64(self.units()),
    {
        proof {
            use_type_invariant(self);
            lemma_whole_magnitude(self.units());
            assert(magnitude_of(self.units()) == self.magnitude);
        }
        if self.magnitude % SCALE != 0 {
            return None;
        }
        let w: u128 = self.magnitude / SCALE;
        proof {
            lemma_whole_quotient(self.units());
        }
        if self.negative {
            if w > 9_223_372_036_854_775_808u128 {
                None
            } else if w == 9_223_372_036_854_775_808u128 {
                Some(i64::MIN)
            } else {
                let p: i64 = w as i64;
                Some(-p)
            }
        } else {
            if w > 9_223_372_036_854_775_807u128 {
                None
            } else {
                Some(w as i64)
            }
        }
    }

    /// The number as an unsigned 64-bit integer, where it is one.
    pub fn as_u64(&self) -> (r: Option<u64>)
        ensures
            r == whole_u64(self.units()),
    {
        proof {
            use_type_invariant(self);
            lemma_whole_magnitude(self.units());
            assert(magnitude_of(self.units()) == self.magnitude);
        }
        if self.magnitude % SCALE != 0 {
            return None;
        }
        proof {
            lemma_whole_quotient(self.units());
        }
        if self.negative {
            return None;
        }
        let w: u128 = self.magnitude / SCALE;
        Some(w as u64)
    }

    /// The number with its sign turned.
    pub fn negated(&self) -> (r: Number)
        ensures
            r.units() == -self.units(),
    {
        proof {
            use_type_invariant(self);
        }
        if self.magnitude == 0 {
            Number { negative: false, magnitude: 0 }
        } else {
            Number { negative: !self.negative, magnitude: self.magnitude }
        }
    }

    /// The sum, or none where it is no number.
    pub fn plus(&self, other: &Number) -> (r: Option<Number>)
        ensures
            units_of(r) == sum_of(self.units(), other.units()),
    {
        proof {
            use_type_invariant(self);
            use_type_invariant(other);
        }
        if self.negative == other.negative {
            Number::from_parts(self.negative, self.magnitude + other.magnitude)
        } else if self.magnitude >= other.magnitude {
            Number::from_parts(self.negative, self.magnitude - other.magnitude)
        } else {
            Number::from_parts(other.negative, other.magnitude - self.magnitude)
        }
    }

    /// The difference, or none where it is no number.
    pub fn minus(&self, other: &Number) -> (r: Option<Number>)
        ensures
            units_of(r) == difference_of(self.units(), other.units()),
    {
        let n = other.negated();
        self.plus(&n)
    }

    /// The product, cut after the eighteenth fractional digit, or none where
    /// it is no number.
    pub fn times(&self, other: &Number) -> (r: Option<Number>)
        ensures
            units_of(r) == product_of(self.units(), other.units()),
    {
        proof {
            use_type_invariant(self);
            use_type_invariant(other);
        }
        let ai: u128 = self.magnitude / SCALE;
        let af: u128 = self.magnitude % SCALE;
        let bi: u128 = other.magnitude / SCALE;
        let bf: u128 = other.magnitude % SCALE;
        let negative = self.negative != other.negative;
        let ghost a = self.magnitude as int;
        let ghost b = other.magnitude as int;
        let ghost s = SCALE as int;
        assert(ai < 0x1_0000_0000_0000_0000 && bi < 0x1_0000_0000_0000_0000);
        assert(ai * bi <= 0xFFFF_FFFF_FFFF_FFFF * 0xFFFF_FFFF_FFFF_FFFF) by (nonlinear_arith)
            requires
                ai <= 0xFFFF_FFFF_FFFF_FFFF,
                bi <= 0xFFFF_FFFF_FFFF_FFFF,
        ;
        let whole: u128 = ai * bi;
        proof {
            lemma_product_parts(a, b, s);
        }
        if whole >= 0x1_0000_0000_0000_0000 {
            assert((a * b) / s >= LIMIT) by (nonlinear_arith)
                requires
                    (a * b) / s == (a / s) * (b / s) * s + (a / s) * (b % s) + (a % s) * (b / s) + ((a
                        % s) * (b % s)) / s,
                    (a / s) * (b / s) >= 0x1_0000_0000_0000_0000,
                    s == 1_000_000_000_000_000_000,
                    a >= 0,
                    b >= 0,
                    LIMIT == 18_446_744_073_709_551_616_000_000_000_000_000_000,
            ;
            return None;
        }
        assert(ai * bf < 0x1_0000_0000_0000_0000 * 1_000_000_000_000_000_000) by (nonlinear_arith)
            requires
                ai < 0x1_0000_0000_0000_0000,
                bf < 1_000_000_000_000_000_000,
        ;
        assert(af * bi < 0x1_0000_0000_0000_0000 * 1_000_000_000_000_000_000) by (nonlinear_arith)
            requires
                bi < 0x1_0000_0000_0000_0000,
                af < 1_000_000_000_000_000_000,
        ;
        assert(af * bf < 1_000_000_000_000_000_000 * 1_000_000_000_000_000_000) by (nonlinear_arith)
            requires
                bf < 1_000_000_000_000_000_000,
                af < 1_000_000_000_000_000_000,
        ;
        let m: u128 = whole * SCALE + ai * bf + af * bi + (af * bf) / SCALE;
        Number::from_parts(negative, m)
    }

    /// The quotient, cut after the eighteenth fractional digit, or none where
    /// the divisor is nought or the quotient is no number.
    #[verifier::loop_isolation(false)]
    pub fn divided_by(&self, other: &Number) -> (r: Option<Number>)
        ensures
            units_of(r) == quotient_of(self.units(), other.units()),
    {
        proof {
            use_type_invariant(self);
            use_type_invariant(other);
        }
        if other.magnitude == 0 {
            return None;
        }
        let a: u128 = self.magnitude;
        let b: u128 = other.magnitude;
        let mut q: u128 = a / b;
        let mut r: u128 = a % b;
        let mut k: usize = 0;
        proof {
            lemma_pow10_values();
            vstd::arithmetic::div_mod::lemma_fundamental_div_mod(a as int, b as int);
            assert(b * (a / b) == (a / b) * b) by (nonlinear_arith);
        }
        // Long division, one fractional digit at a time.
        while k < 18
            invariant
                k <= 18,
                0 < b < LIMIT,
                r < b,
                q < LIMIT,
                a < LIMIT,
                (a as int) * (pow10(k as nat) as int) == (q as int) * (b as int) + (r as int),
            decreases 18 - k,
        {
            let t: u128 = r * 10;
            let d: u128 = t / b;
            let rest: u128 = t % b;
            proof {
                assert(d < 10) by (nonlinear_arith)
                    requires
                        d == t / b,
                        t < b * 10,
                        b > 0,
                ;
                vstd::arithmetic::div_mod::lemma_fundamental_div_mod(t as int, b as int);
                assert(pow10((k + 1) as nat) == 10 * pow10(k as nat));
                assert((a as int) * (pow10((k + 1) as nat) as int) == (q * 10 + d) * (b as int)
                    + (rest as int)) by (nonlinear_arith)
                    requires
                        (a as int) * (pow10(k as nat) as int) == (q as int) * (b as int) + (r as int),
                        pow10((k + 1) as nat) == 10 * pow10(k as nat),
                        t == r * 10,
                        t as int == (b as int) * (d as int) + (rest as int),
                ;
            }
            let next: u128 = q * 10 + d;
            if next >= LIMIT {
                proof {
                    lemma_quotient_overflows(
                        a as int,
                        b as int,
                        next as int,
                        rest as int,
                        (k + 1) as nat,
                    );
                }
                return None;
            }
            q = next;
            r = rest;
            k += 1;
        }
        proof {
            lemma_pow10_values();
            vstd::arithmetic::div_mod::lemma_fundamental_div_mod_converse(
                (a as int) * (SCALE as int),
                b as int,
                q as int,
                r as int,
            );
        }
        Number::from_parts(self.negative != other.negative, q)
    }

    /// The number rounded to six fractional digits, if that is a number.
    pub fn rounded(&self) -> (r: Option<Number>)
        ensures
            units_of(r) == rounded_to_millionths(self.units()),
    {
        proof {
            use_type_invariant(self);
        }
        let q: u128 = (self.magnitude + MILLIONTH / 2) / MILLIONTH;
        Number::from_parts(self.negative, q * MILLIONTH)
    }

    /// How the number stands to `other`.
    pub fn relate(&self, other: &Number) -> (r: Relation)
        ensures
            r == relation_of(self.units(), other.units()),
    {
        proof {
            use_type_invariant(self);
            use_type_invariant(other);
        }
        if self.negative && !other.negative {
            Relation::Before
        } else if !self.negative && other.negative {
            Relation::After
        } else if self.magnitude == other.magnitude {
            Relation::Same
        } else if (self.magnitude < other.magnitude) != self.negative {
            Relation::Before
        } else {
            Relation::After
        }
    }

    /// Whether both are the same number.
    pub fn equals(&self, other: &Number) -> (r: bool)
        ensures
            r == (self.units() == other.units()),
    {
        proof {
            use_type_invariant(self);
            use_type_invariant(other);
        }
        self.negative == other.negative && self.magnitude == other.magnitude
    }

    /// The canonical text of the number.
    pub fn to_text(&self) -> (r: String)
        ensures
            r@ == decimal_text(self.units()),
    {
        let v = self.to_chars();
        text_of(&v)
    }

    /// The canonical text of the number, as characters.
    pub fn to_chars(&self) -> (r: Vec<char>)
        ensures
            r@ == decimal_text(self.units()),
    {
        proof {
            use_type_invariant(self);
        }
        let mut out: Vec<char> = Vec::new();
        if self.negative {
            out.push('-');
        }
        let ghost sign = out@;
        let whole = digits(self.magnitude / SCALE);
        let mut i: usize = 0;
        while i < whole.len()
            invariant
                i <= whole.len(),
                out@ == sign + whole@.take(i as int),
            decreases whole.len() - i,
        {
            out.push(whole[i]);
            assert(whole@.take(i as int).push(whole@[i as int]) =~= whole@.take(i + 1));
            assert(out@ =~= sign + whole@.take(i + 1));
            i += 1;
        }
        assert(whole@.take(whole@.len() as int) =~= whole@);
        let fraction: u128 = self.magnitude % SCALE;
        if fraction != 0 {
            out.push('.');
            let ghost head = out@;
            let f = padded(fraction, 18);
            let mut end: usize = f.len();
            assert(f@.take(f@.len() as int) =~= f@);
            while end > 0 && f[end - 1] == '0'
                invariant
                    end <= f.len(),
                    without_trailing_zeros(f@) == without_trailing_zeros(f@.take(end as int)),
                decreases end,
            {
                assert(f@.take(end as int).drop_last() =~= f@.take(end - 1));
                end -= 1;
            }
            let mut k: usize = 0;
            while k < end
                invariant
                    k <= end <= f.len(),
                    out@ == head + f@.take(k as int),
                decreases end - k,
            {
                out.push(f[k]);
                assert(f@.take(k as int).push(f@[k as int]) =~= f@.take(k + 1));
                assert(out@ =~= head + f@.take(k + 1));
                k += 1;
            }
            assert(f@.take(f@.len() as int) =~= f@);
        }
        out
    }

    /// Reads a decimal literal: an optional sign, digits with at most one
    /// point among them, and optionally an exponent.
    pub fn parse(s: &str) -> (r: Option<Number>)
        ensures
            units_of(r) == parse_decimal(s@),
    {
        let v = chars_of(s);
        Number::parse_chars(&v)
    }

    /// Reads a decimal literal from characters.
    pub fn parse_chars(v: &Vec<char>) -> (r: Option<Number>)
        ensures
            units_of(r) == parse_decimal(v@),
    {
        if v.len() > 0 && (v[0] == '-' || v[0] == '+') {
            let negative = v[0] == '-';
            let body = slice_of(v, 1, v.len());
            match parse_unsigned(&body) {
                Some(m) => Number::from_parts(negative, m),
                None => None,
            }
        } else {
            match parse_unsigned(v) {
                Some(m) => Number::from_parts(false, m),
                None => None,
            }
        }
    }

    /// Reads a decimal literal that carries no sign.
    pub fn parse_unsigned_chars(v: &Vec<char>) -> (r: Option<Number>)
        ensures
            units_of(r) == match unsigned_decimal(v@) {
                Some(m) => Some(m as int),
                None => None,
            },
    {
        match parse_unsigned(v) {
            Some(m) => Number::from_parts(false, m),
            None => None,
        }
    }
}

proof fn lemma_whole_magnitude(u: int)
    ensures
        is_whole(u) <==> magnitude_of(u) % (SCALE as nat) == 0,
{
    let s = SCALE as int;
    if u < 0 {
        assert((u % s == 0) <==> ((-u) % s == 0)) by (nonlinear_arith)
            requires
                s == 1_000_000_000_000_000_000,
        ;
    }
}

proof fn lemma_whole_quotient(u: int)
    requires
        is_whole(u),
    ensures
        u / (SCALE as int) == signed(u < 0, (magnitude_of(u) / (SCALE as nat)) as int),
{
    let s = SCALE as int;
    if u < 0 {
        assert(u / s == -((-u) / s)) by (nonlinear_arith)
            requires
                s == 1_000_000_000_000_000_000,
                u % s == 0,
        ;
    }
}

proof fn lemma_product_parts(a: int, b: int, s: int)
    requires
        a >= 0,
        b >= 0,
        s > 0,
    ensures
        (a * b) / s == (a / s) * (b / s) * s + (a / s) * (b % s) + (a % s) * (b / s) + ((a % s) * (b
            % s)) / s,
{
    let ai = a / s;
    let af = a % s;
    let bi = b / s;
    let bf = b % s;
    assert(a == ai * s + af && b == bi * s + bf) by (nonlinear_arith)
        requires
            ai == a / s,
            af == a % s,
            bi == b / s,
            bf == b % s,
            s > 0,
    ;
    let x = ai * bi * s + ai * bf + af * bi;
    let r = af * bf;
    assert(a * b == (ai * s) * b + af * b) by (nonlinear_arith)
        requires
            a == ai * s + af,
    ;
    assert((ai * s) * b == (ai * bi * s) * s + (ai * bf) * s) by (nonlinear_arith)
        requires
            b == bi * s + bf,
    ;
    assert(af * b == (af * bi) * s + af * bf) by (nonlinear_arith)
        requires
            b == bi * s + bf,
    ;
    assert(x * s == (ai * bi * s) * s + (ai * bf) * s + (af * bi) * s) by (nonlinear_arith)
        requires
            x == ai * bi * s + ai * bf + af * bi,
    ;
    assert(r >= 0) by (nonlinear_arith)
        requires
            r == af * bf,
            af >= 0,
            bf >= 0,
    ;
    assert((x * s + r) / s == x + r / s) by (nonlinear_arith)
        requires
            s > 0,
            r >= 0,
    ;
}

fn digit(d: u128) -> (r: char)
    requires
        d < 10,
    ensures
        r == digit_char(d as nat),
        is_digit(r),
        digit_value(r) == d,
{
    let b: u8 = d as u8;
    (b + 48) as char
}

/// The decimal digits of `n`.
fn digits(n: u128) -> (r: Vec<char>)
    ensures
        r@ == digits_of(n as nat),
    decreases n,
{
    if n < 10 {
        let mut v: Vec<char> = Vec::new();
        v.push(digit(n));
        assert(v@ =~= seq![digit_char(n as nat)]);
        v
    } else {
        let mut v = digits(n / 10);
        v.push(digit(n % 10));
        v
    }
}

/// The last `width` decimal digits of `n`.
fn padded(n: u128, width: usize) -> (r: Vec<char>)
    ensures
        r@ == padded_digits(n as nat, width as nat),
        r@.len() == width,
    decreases width,
{
    if width == 0 {
        Vec::new()
    } else {
        let mut v = padded(n / 10, width - 1);
        v.push(digit(n % 10));
        v
    }
}

fn digit_of(c: char) -> (r: Option<u128>)
    ensures
        r is Some <==> is_digit(c),
        r is Some ==> r->0 == digit_value(c) && r->0 < 10,
{
    if '0' <= c && c <= '9' {
        let b: u8 = c as u8;
        Some((b - 48) as u128)
    } else {
        None
    }
}

proof fn lemma_pow10_add(a: nat, b: nat)
    ensures
        pow10(a + b) == pow10(a) * pow10(b),
        pow10(a) >= 1,
    decreases a,
{
    if a == 0 {
        assert(pow10(0 + b) == 1 * pow10(b));
    } else {
        lemma_pow10_add((a - 1) as nat, b);
        assert(pow10(a + b) == 10 * pow10((a - 1 + b) as nat));
        assert(10 * (pow10((a - 1) as nat) * pow10(b)) == (10 * pow10((a - 1) as nat)) * pow10(b))
            by (nonlinear_arith);
    }
}

proof fn lemma_quotient_overflows(a: int, b: int, q: int, r: int, k: nat)
    requires
        a >= 0,
        b > 0,
        r >= 0,
        q >= LIMIT,
        k <= 18,
        a * (pow10(k) as int) == q * b + r,
    ensures
        (a * (SCALE as int)) / b >= LIMIT,
{
    lemma_pow10_values();
    lemma_pow10_add(k, (18 - k) as nat);
    let p = pow10((18 - k) as nat) as int;
    assert(a * (SCALE as int) >= (LIMIT as int) * b) by (nonlinear_arith)
        requires
            a * (pow10(k) as int) == q * b + r,
            (SCALE as int) == (pow10(k) as int) * p,
            p >= 1,
            q >= LIMIT,
            b > 0,
            r >= 0,
            a >= 0,
    ;
    assert((a * (SCALE as int)) / b >= LIMIT) by (nonlinear_arith)
        requires
            a * (SCALE as int) >= (LIMIT as int) * b,
            b > 0,
    ;
}

proof fn lemma_index_bounds(s: Seq<char>, i: int)
    requires
        0 <= i <= s.len(),
    ensures
        i <= point_index(s, i) <= s.len(),
        i <= exponent_index(s, i) <= s.len(),
    decreases s.len() - i,
{
    if i < s.len() {
        lemma_index_bounds(s, i + 1);
    }
}

proof fn lemma_fraction_bound(s: Seq<char>, i: int, width: nat)
    requires
        all_digits(s),
    ensures
        fraction_value(s, i, width) < pow10(width),
    decreases width,
{
    if width > 0 {
        lemma_fraction_bound(s, i + 1, (width - 1) as nat);
        let d = if 0 <= i < s.len() {
            digit_value(s[i])
        } else {
            0
        };
        let p = pow10((width - 1) as nat);
        assert(d <= 9);
        assert(d * p + fraction_value(s, i + 1, (width - 1) as nat) < 10 * p) by (nonlinear_arith)
            requires
                d <= 9,
                fraction_value(s, i + 1, (width - 1) as nat) < p,
        ;
    }
}

/// Whether every character of `v` is a digit.
fn only_digits(v: &Vec<char>) -> (r: bool)
    ensures
        r == all_digits(v@),
{
    let mut i: usize = 0;
    while i < v.len()
        invariant
            i <= v.len(),
            forall|k: int| 0 <= k < i ==> is_digit(#[trigger] v@[k]),
        decreases v.len() - i,
    {
        if digit_of(v[i]).is_none() {
            return false;
        }
        i += 1;
    }
    true
}

/// The value of a run of digits, where it is below `2^64`.
fn whole_units(v: &Vec<char>) -> (r: Option<u128>)
    requires
        all_digits(v@),
    ensures
        r is Some <==> digits_value(v@) < 0x1_0000_0000_0000_0000,
        r is Some ==> r->0 == digits_value(v@),
{
    let mut acc: u128 = 0;
    let mut i: usize = 0;
    assert(v@.take(0) =~= Seq::<char>::empty());
    while i < v.len()
        invariant
            i <= v.len(),
            all_digits(v@),
            acc == digits_value(v@.take(i as int)),
            acc < 0x1_0000_0000_0000_0000,
        decreases v.len() - i,
    {
        let c = v[i];
        assert(v@.take(i + 1) =~= v@.take(i as int).push(c));
        proof {
            lemma_digits_value_push(v@.take(i as int), c);
        }
        let d: u128 = match digit_of(c) {
            Some(d) => d,
            None => 0,
        };
        let next: u128 = acc * 10 + d;
        if next >= 0x1_0000_0000_0000_0000 {
            proof {
                lemma_digits_value_prefix(v@, i + 1);
            }
            return None;
        }
        acc = next;
        i += 1;
    }
    assert(v@.take(v@.len() as int) =~= v@);
    Some(acc)
}

/// A run of digits is worth no less than any of its beginnings.
proof fn lemma_digits_value_prefix(s: Seq<char>, n: int)
    requires
        all_digits(s),
        0 <= n <= s.len(),
    ensures
        digits_value(s) >= digits_value(s.take(n)),
    decreases s.len() - n,
{
    if n < s.len() {
        lemma_digits_value_prefix(s, n + 1);
        assert(s.take(n + 1) =~= s.take(n).push(s[n]));
        lemma_digits_value_push(s.take(n), s[n]);
    } else {
        assert(s.take(n) =~= s);
    }
}

/// The units that the digits of `v` stand for after the point.
fn fraction_units(v: &Vec<char>) -> (r: u128)
    requires
        all_digits(v@),
    ensures
        r == fraction_value(v@, 0, 18),
        r < SCALE,
{
    let ghost f = v@;
    let mut acc: u128 = 0;
    let mut j: usize = 0;
    proof {
        lemma_pow10_values();
        lemma_fraction_bound(f, 0, 18);
    }
    let mut rest: usize = 18;
    let ghost total = fraction_value(f, 0, 18);
    while rest > 0
        invariant
            rest <= 18,
            j + rest == 18,
            f == v@,
            all_digits(f),
            total == acc * pow10(rest as nat) + fraction_value(f, j as int, rest as nat),
            total < pow10(18),
            acc < pow10(j as nat),
        decreases rest,
    {
        proof {
            lemma_pow10_values();
        }
        let d: u128 = if j < v.len() {
            match digit_of(v[j]) {
                Some(d) => d,
                None => 0,
            }
        } else {
            0
        };
        let ghost p = pow10((rest - 1) as nat);
        assert(pow10(rest as nat) == 10 * p);
        assert(fraction_value(f, j as int, rest as nat) == d * p + fraction_value(
            f,
            j + 1,
            (rest - 1) as nat,
        ));
        assert(acc * (10 * p) + d * p == (acc * 10 + d) * p) by (nonlinear_arith);
        assert(pow10((j + 1) as nat) == 10 * pow10(j as nat));
        acc = acc * 10 + d;
        j += 1;
        rest -= 1;
    }
    assert(acc * 1 == acc);
    acc
}

/// The power of ten that the exponent text `v` spells.
fn exponent_of(v: &Vec<char>) -> (r: Option<(bool, usize)>)
    ensures
        match r {
            Some((negative, size)) => exponent_value(v@) == Some(signed(negative, size as int))
                && size <= 999,
            None => exponent_value(v@) is None,
        },
{
    let signed_text = v.len() > 0 && (v[0] == '-' || v[0] == '+');
    let negative = signed_text && v[0] == '-';
    let digits = if signed_text {
        slice_of(v, 1, v.len())
    } else {
        assert(v@.subrange(0, v@.len() as int) =~= v@);
        slice_of(v, 0, v.len())
    };
    if digits.len() < 1 || digits.len() > 3 || !only_digits(&digits) {
        return None;
    }
    match whole_units(&digits) {
        Some(n) => {
            proof {
                lemma_three_digits(digits@);
            }
            Some((negative, n as usize))
        },
        None => {
            proof {
                lemma_three_digits(digits@);
            }
            None
        },
    }
}

proof fn lemma_three_digits(s: Seq<char>)
    requires
        all_digits(s),
        s.len() <= 3,
    ensures
        digits_value(s) <= 999,
{
    reveal_with_fuel(digits_value, 5);
    if s.len() == 3 {
        assert(s.drop_last().drop_last().drop_last().len() == 0);
        assert(is_digit(s[0]) && is_digit(s[1]) && is_digit(s[2]));
        assert(s.drop_last().last() == s[1]);
        assert(s.drop_last().drop_last().last() == s[0]);
    } else if s.len() == 2 {
        assert(is_digit(s[0]) && is_digit(s[1]));
        assert(s.drop_last().last() == s[0]);
    } else if s.len() == 1 {
        assert(is_digit(s[0]));
    }
}

/// The digits before and after the point once it has moved by the exponent.
fn shift(whole: &Vec<char>, fraction: &Vec<char>, negative: bool, size: usize) -> (r: (
    Vec<char>,
    Vec<char>,
))
    requires
        size <= 999,
        all_digits(whole@),
        all_digits(fraction@),
    ensures
        r.0@ == shifted_whole(whole@, fraction@, signed(negative, size as int)),
        r.1@ == shifted_fraction(whole@, fraction@, signed(negative, size as int)),
        all_digits(r.0@),
        all_digits(r.1@),
{
    let ghost x = signed(negative, size as int);
    if !negative || size == 0 {
        assert(x == size);
        let mut w: Vec<char> = slice_of(whole, 0, whole.len());
        assert(whole@.subrange(0, whole@.len() as int) =~= whole@);
        let mut i: usize = 0;
        while i < size
            invariant
                i <= size,
                all_digits(fraction@),
                w@ == whole@ + Seq::new(
                    i as nat,
                    |k: int|
                        if k < fraction@.len() {
                            fraction@[k]
                        } else {
                            '0'
                        },
                ),
            decreases size - i,
        {
            let c = if i < fraction.len() {
                fraction[i]
            } else {
                '0'
            };
            w.push(c);
            assert(w@ =~= whole@ + Seq::new(
                (i + 1) as nat,
                |k: int|
                    if k < fraction@.len() {
                        fraction@[k]
                    } else {
                        '0'
                    },
            ));
            i += 1;
        }
        let f: Vec<char> = if size < fraction.len() {
            slice_of(fraction, size, fraction.len())
        } else {
            Vec::new()
        };
        assert(w@ =~= shifted_whole(whole@, fraction@, x));
        assert(f@ =~= shifted_fraction(whole@, fraction@, x));
        (w, f)
    } else {
        assert(x == -(size as int));
        let n: usize = whole.len();
        let w: Vec<char> = if size < n {
            slice_of(whole, 0, n - size)
        } else {
            Vec::new()
        };
        let base: usize = if size <= n {
            n - size
        } else {
            0
        };
        let lack: usize = if size > n {
            size - n
        } else {
            0
        };
        let mut f: Vec<char> = Vec::new();
        let mut i: usize = 0;
        while i < size
            invariant
                i <= size,
                n == whole.len(),
                size <= 999,
                base - lack == n - size,
                base == 0 || lack == 0,
                all_digits(whole@),
                f@ == Seq::new(
                    i as nat,
                    |k: int|
                        if n - size + k >= 0 {
                            whole@[n - size + k]
                        } else {
                            '0'
                        },
                ),
            decreases size - i,
        {
            let c = if i >= lack {
                whole[base + (i - lack)]
            } else {
                '0'
            };
            f.push(c);
            assert(f@ =~= Seq::new(
                (i + 1) as nat,
                |k: int|
                    if n - size + k >= 0 {
                        whole@[n - size + k]
                    } else {
                        '0'
                    },
            ));
            i += 1;
        }
        let ghost lead = f@;
        let mut j: usize = 0;
        while j < fraction.len()
            invariant
                j <= fraction.len(),
                f@ == lead + fraction@.take(j as int),
            decreases fraction.len() - j,
        {
            f.push(fraction[j]);
            assert(fraction@.take(j as int).push(fraction@[j as int]) =~= fraction@.take(j + 1));
            assert(f@ =~= lead + fraction@.take(j + 1));
            j += 1;
        }
        assert(fraction@.take(fraction@.len() as int) =~= fraction@);
        assert(w@ =~= shifted_whole(whole@, fraction@, x));
        assert(f@ =~= shifted_fraction(whole@, fraction@, x));
        (w, f)
    }
}

/// The magnitude that `v` stands for as an unsigned decimal literal.
fn parse_unsigned(v: &Vec<char>) -> (r: Option<u128>)
    ensures
        r == match unsigned_decimal(v@) {
            Some(m) => Some(m as u128),
            None => None,
        },
        r is Some ==> r->0 < LIMIT,
{
    let ghost s = v@;
    proof {
        lemma_index_bounds(s, 0);
    }
    let mut e: usize = 0;
    while e < v.len() && v[e] != 'e' && v[e] != 'E'
        invariant
            e <= v.len(),
            exponent_index(v@, 0) == exponent_index(v@, e as int),
        decreases v.len() - e,
    {
        e += 1;
    }
    let mantissa = slice_of(v, 0, e);
    let exponent: Option<(bool, usize)> = if e < v.len() {
        let text = slice_of(v, e + 1, v.len());
        match exponent_of(&text) {
            Some(x) => Some(x),
            None => {
                return None;
            },
        }
    } else {
        Some((false, 0))
    };
    let (negative, size) = match exponent {
        Some(x) => x,
        None => {
            return None;
        },
    };
    proof {
        lemma_index_bounds(mantissa@, 0);
    }
    let mut dot: usize = 0;
    while dot < mantissa.len() && mantissa[dot] != '.'
        invariant
            dot <= mantissa.len(),
            point_index(mantissa@, 0) == point_index(mantissa@, dot as int),
        decreases mantissa.len() - dot,
    {
        dot += 1;
    }
    let whole = slice_of(&mantissa, 0, dot);
    let fraction: Vec<char> = if dot < mantissa.len() {
        slice_of(&mantissa, dot + 1, mantissa.len())
    } else {
        Vec::new()
    };
    if !only_digits(&whole) || !only_digits(&fraction) || whole.len() + fraction.len() == 0 {
        return None;
    }
    let (w, f) = shift(&whole, &fraction, negative, size);
    let units = fraction_units(&f);
    match whole_units(&w) {
        Some(n) => {
            assert(n * SCALE + units < LIMIT) by (nonlinear_arith)
                requires
                    n < 0x1_0000_0000_0000_0000,
                    units < 1_000_000_000_000_000_000,
                    SCALE == 1_000_000_000_000_000_000,
                    LIMIT == 18_446_744_073_709_551_616_000_000_000_000_000_000,
            ;
            Some(n * SCALE + units)
        },
        None => {
            assert(digits_value(w@) * (SCALE as nat) + units >= LIMIT) by (nonlinear_arith)
                requires
                    digits_value(w@) >= 0x1_0000_0000_0000_0000,
                    SCALE == 1_000_000_000_000_000_000,
                    LIMIT == 18_446_744_073_709_551_616_000_000_000_000_000_000,
            ;
            None
        },
    }
}

} // verus!

verus! {

impl crate::model::Model for Number {
    type M = int;

    open spec fn model(&self) -> int {
        self.units()
    }

    fn copy_of(&self) -> (r: Self) {
        *self
    }

    fn same_as(&self, other: &Self) -> (b: bool) {
        self.equals(other)
    }
}

} // verus!
