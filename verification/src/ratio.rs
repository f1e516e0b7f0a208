//! Exact fractions.
//!
//! Rates, prices and costs are fractions of integers of any size: a rate is
//! positive exactly where the data say so, and two rates are compared without
//! rounding. Where a number is turned into text it is rounded to a double first:
//! `double_of` and `Ratio::to_double` do what IEEE 754 arithmetic does.
use crate::natural::Natural;
use vstd::arithmetic::power2::pow2;
use vstd::prelude::*;

verus! {

// ---------------------------------------------------------------------------
// Rounding
// ---------------------------------------------------------------------------

/// `num / den` rounded to the nearest integer, halves away from zero.
pub open spec fn nearest(num: int, den: int) -> int {
    if num >= 0 {
        (2 * num + den) / (2 * den)
    } else {
        -((2 * (-num) + den) / (2 * den))
    }
}

/// `num / den` rounded to the nearest integer, halves to the even neighbour.
pub open spec fn nearest_even(num: int, den: int) -> int
    recommends
        num >= 0,
        den > 0,
{
    let q = num / den;
    let r = num % den;
    if 2 * r < den || (2 * r == den && q % 2 == 0) {
        q
    } else {
        q + 1
    }
}

/// `num / den` without its fractional part.
pub open spec fn toward_zero(num: int, den: int) -> int {
    if num >= 0 {
        num / den
    } else {
        -((-num) / den)
    }
}

/// The integer nearest to `i` that an `i64` can hold.
pub open spec fn saturated(i: int) -> int {
    if i > i64::MAX {
        i64::MAX as int
    } else if i < i64::MIN {
        i64::MIN as int
    } else {
        i
    }
}

// ---------------------------------------------------------------------------
// Signed integers of any size
// ---------------------------------------------------------------------------

/// An integer of any size.
pub struct Integer {
    negative: bool,
    magnitude: Natural,
}

impl View for Integer {
    type V = int;

    closed spec fn view(&self) -> int {
        if self.negative {
            -(self.magnitude@ as int)
        } else {
            self.magnitude@ as int
        }
    }
}

proof fn lemma_sign_product(a: int, b: int)
    ensures
        (-a) * b == -(a * b),
        a * (-b) == -(a * b),
        (-a) * (-b) == a * b,
{
    assert((-a) * b == -(a * b)) by (nonlinear_arith);
    assert(a * (-b) == -(a * b)) by (nonlinear_arith);
    assert((-a) * (-b) == a * b) by (nonlinear_arith);
}

impl Integer {
    /// Zero.
    pub fn zero() -> (r: Integer)
        ensures
            r@ == 0,
    {
        Integer { negative: false, magnitude: Natural::zero() }
    }

    /// The number `i`.
    pub fn from_i64(i: i64) -> (r: Integer)
        ensures
            r@ == i,
    {
        if i < 0 {
            Integer { negative: true, magnitude: Natural::from_u64((-(i as i128)) as u64) }
        } else {
            Integer { negative: false, magnitude: Natural::from_u64(i as u64) }
        }
    }

    /// The number `n`.
    pub fn from_u64(n: u64) -> (r: Integer)
        ensures
            r@ == n,
    {
        Integer { negative: false, magnitude: Natural::from_u64(n) }
    }

    /// A copy.
    pub fn copy(&self) -> (r: Integer)
        ensures
            r@ == self@,
    {
        Integer { negative: self.negative, magnitude: self.magnitude.copy() }
    }

    /// `-self`.
    pub fn negated(&self) -> (r: Integer)
        ensures
            r@ == -self@,
    {
        Integer { negative: !self.negative, magnitude: self.magnitude.copy() }
    }

    /// `self + other`.
    pub fn plus(&self, other: &Integer) -> (r: Integer)
        ensures
            r@ == self@ + other@,
    {
        if self.negative == other.negative {
            Integer {
                negative: self.negative,
                magnitude: self.magnitude.plus(&other.magnitude),
            }
        } else if other.magnitude.at_most(&self.magnitude) {
            Integer {
                negative: self.negative,
                magnitude: self.magnitude.minus(&other.magnitude),
            }
        } else {
            Integer {
                negative: other.negative,
                magnitude: other.magnitude.minus(&self.magnitude),
            }
        }
    }

    /// `self - other`.
    pub fn minus(&self, other: &Integer) -> (r: Integer)
        ensures
            r@ == self@ - other@,
    {
        self.plus(&other.negated())
    }

    /// `self * other`.
    pub fn times(&self, other: &Integer) -> (r: Integer)
        ensures
            r@ == self@ * other@,
    {
        proof {
            lemma_sign_product(self.magnitude@ as int, other.magnitude@ as int);
        }
        Integer {
            negative: self.negative != other.negative,
            magnitude: self.magnitude.times(&other.magnitude),
        }
    }

    /// Whether the number is greater than zero.
    pub fn is_positive(&self) -> (r: bool)
        ensures
            r == (self@ > 0),
    {
        !self.negative && !self.magnitude.at_most(&Natural::zero())
    }

    /// Whether `self < other`.
    pub fn less_than(&self, other: &Integer) -> (r: bool)
        ensures
            r == (self@ < other@),
    {
        other.minus(self).is_positive()
    }

    /// The whole part of `self / divisor`, cut off toward zero and kept within `i64`.
    pub fn truncated(&self, divisor: &Integer) -> (r: i64)
        requires
            divisor@ > 0,
        ensures
            r == saturated(toward_zero(self@, divisor@)),
    {
        let q: u64 = self.magnitude.quotient(&divisor.magnitude);
        if self.negative {
            if q > 9_223_372_036_854_775_808 {
                i64::MIN
            } else {
                (-(q as i128)) as i64
            }
        } else if q > 9_223_372_036_854_775_807 {
            i64::MAX
        } else {
            q as i64
        }
    }

    /// `self / divisor` to the nearest integer, halves away from zero, kept within `i64`.
    pub fn rounded(&self, divisor: &Integer) -> (r: i64)
        requires
            divisor@ > 0,
        ensures
            r == saturated(nearest(self@, divisor@)),
    {
        let two = Integer::from_u64(2);
        let double = self.times(&two);
        let below = divisor.times(&two);
        if self.negative {
            let r = double.minus(divisor).truncated(&below);
            proof {
                if self@ == 0 {
                    vstd::arithmetic::div_mod::lemma_basic_div(divisor@, below@);
                }
            }
            r
        } else {
            double.plus(divisor).truncated(&below)
        }
    }

    /// `self / divisor` to the nearest integer, halves to even.
    pub fn rounded_even(&self, divisor: &Integer) -> (r: Natural)
        requires
            self@ >= 0,
            divisor@ > 0,
        ensures
            r@ == nearest_even(self@, divisor@),
    {
        let (q, rest) = self.magnitude.divided(&divisor.magnitude);
        let twice = rest.plus(&rest);
        let (_, last) = q.tenth();
        let past: bool = divisor.magnitude.at_most(&twice);
        if !past || (last % 2 == 0 && twice.at_most(&divisor.magnitude)) {
            q
        } else {
            q.plus(&Natural::from_u64(1))
        }
    }
}

// ---------------------------------------------------------------------------
// Fractions
// ---------------------------------------------------------------------------

/// A fraction with a positive denominator.
pub struct Ratio {
    num: Integer,
    den: Integer,
}

impl Ratio {
    /// The numerator.
    pub closed spec fn num(&self) -> int {
        self.num@
    }

    /// The denominator.
    pub closed spec fn den(&self) -> int {
        self.den@
    }

    #[verifier::type_invariant]
    spec fn has_positive_denominator(&self) -> bool {
        self.den@ > 0
    }

    /// Every fraction's denominator is positive.
    pub fn denominator(&self) -> (r: Integer)
        ensures
            r@ == self.den(),
            self.den() > 0,
    {
        proof {
            use_type_invariant(self);
        }
        self.den.copy()
    }

    /// The numerator.
    pub fn numerator(&self) -> (r: Integer)
        ensures
            r@ == self.num(),
            self.den() > 0,
    {
        proof {
            use_type_invariant(self);
        }
        self.num.copy()
    }

    /// `num / den`.
    pub fn new(num: Integer, den: Integer) -> (r: Ratio)
        requires
            den@ > 0,
        ensures
            r.num() == num@,
            r.den() == den@,
    {
        Ratio { num, den }
    }

    /// The whole number `n`.
    pub fn from_u64(n: u64) -> (r: Ratio)
        ensures
            r.num() == n,
            r.den() == 1,
    {
        Ratio { num: Integer::from_u64(n), den: Integer::from_u64(1) }
    }

    /// A copy.
    pub fn copy(&self) -> (r: Ratio)
        ensures
            r.num() == self.num(),
            r.den() == self.den(),
    {
        proof {
            use_type_invariant(self);
        }
        Ratio { num: self.num.copy(), den: self.den.copy() }
    }

    /// Whether the fraction is greater than zero.
    pub fn is_positive(&self) -> (r: bool)
        ensures
            r == (self.num() > 0),
            self.den() > 0,
    {
        proof {
            use_type_invariant(self);
        }
        self.num.is_positive()
    }

    /// Whether `self < other`.
    pub fn less_than(&self, other: &Ratio) -> (r: bool)
        ensures
            r == (self.num() * other.den() < other.num() * self.den()),
            self.den() > 0,
            other.den() > 0,
    {
        proof {
            use_type_invariant(self);
            use_type_invariant(other);
        }
        self.num.times(&other.den).less_than(&other.num.times(&self.den))
    }

    /// `self * other`.
    pub fn times(&self, other: &Ratio) -> (r: Ratio)
        ensures
            r.num() == self.num() * other.num(),
            r.den() == self.den() * other.den(),
    {
        proof {
            use_type_invariant(self);
            use_type_invariant(other);
            assert(self.den@ * other.den@ > 0) by (nonlinear_arith)
                requires
                    self.den@ > 0,
                    other.den@ > 0,
            ;
        }
        Ratio { num: self.num.times(&other.num), den: self.den.times(&other.den) }
    }

    /// `self + other`.
    pub fn plus(&self, other: &Ratio) -> (r: Ratio)
        ensures
            r.num() == self.num() * other.den() + other.num() * self.den(),
            r.den() == self.den() * other.den(),
    {
        proof {
            use_type_invariant(self);
            use_type_invariant(other);
            assert(self.den@ * other.den@ > 0) by (nonlinear_arith)
                requires
                    self.den@ > 0,
                    other.den@ > 0,
            ;
        }
        let num = self.num.times(&other.den).plus(&other.num.times(&self.den));
        Ratio { num, den: self.den.times(&other.den) }
    }
}

// ---------------------------------------------------------------------------
// IEEE 754 doubles
// ---------------------------------------------------------------------------

/// The exponent field of a double.
pub open spec fn double_exponent(bits: u64) -> int {
    ((bits / 0x10_0000_0000_0000) % 0x800) as int
}

/// The significand of a double, with its implied leading bit.
pub open spec fn double_significand(bits: u64) -> int {
    let field = bits % 0x10_0000_0000_0000;
    if double_exponent(bits) == 0 {
        field as int
    } else {
        0x10_0000_0000_0000 + field
    }
}

/// The power of two by which the significand counts.
pub open spec fn double_scale(bits: u64) -> int {
    if double_exponent(bits) == 0 {
        -1074
    } else {
        double_exponent(bits) - 1075
    }
}

/// The numerator of the fraction that a finite double stands for.
pub open spec fn double_num(bits: u64) -> int {
    let scale = double_scale(bits);
    let magnitude = double_significand(bits) * (if scale > 0 {
        pow2(scale as nat) as int
    } else {
        1
    });
    if bits >= 0x8000_0000_0000_0000 {
        -magnitude
    } else {
        magnitude
    }
}

/// The denominator of the fraction that a finite double stands for.
pub open spec fn double_den(bits: u64) -> int {
    let scale = double_scale(bits);
    if scale < 0 {
        pow2((-scale) as nat) as int
    } else {
        1
    }
}

/// Two to the power `k`.
fn power_of_two(k: u64) -> (r: Integer)
    ensures
        r@ == pow2(k as nat),
        r@ > 0,
    decreases k,
{
    proof {
        vstd::arithmetic::power2::lemma_pow2_pos(k as nat);
        vstd::arithmetic::power2::lemma2_to64();
    }
    if k == 0 {
        return Integer::from_u64(1);
    }
    let h: u64 = k / 2;
    let root = power_of_two(h);
    let square = root.times(&root);
    proof {
        vstd::arithmetic::power2::lemma_pow2_adds(h as nat, h as nat);
        vstd::arithmetic::power2::lemma_pow2_unfold(k as nat);
    }
    if k % 2 == 0 {
        square
    } else {
        square.times(&Integer::from_u64(2))
    }
}

impl Ratio {
    /// The exact value of the IEEE 754 double with these bits, where it is a
    /// number: infinities and not-a-number have none.
    pub fn from_double_bits(bits: u64) -> (r: Option<Ratio>)
        ensures
            match r {
                Some(v) => double_exponent(bits) != 0x7ff && v.num() == double_num(bits) && v.den()
                    == double_den(bits),
                None => double_exponent(bits) == 0x7ff,
            },
    {
        let exponent: u64 = (bits / 0x10_0000_0000_0000) % 0x800;
        if exponent == 0x7ff {
            return None;
        }
        let field: u64 = bits % 0x10_0000_0000_0000;
        let significand: u64 = if exponent == 0 {
            field
        } else {
            0x10_0000_0000_0000 + field
        };
        let magnitude = Integer::from_u64(significand);
        let one = Integer::from_u64(1);
        let (whole, den) = if exponent > 1075 {
            (magnitude.times(&power_of_two(exponent - 1075)), one)
        } else if exponent == 0 {
            (magnitude, power_of_two(1074))
        } else if exponent == 1075 {
            (magnitude, one)
        } else {
            (magnitude, power_of_two(1075 - exponent))
        };
        assert(double_significand(bits) * 1 == double_significand(bits)) by (nonlinear_arith);
        let num = if bits >= 0x8000_0000_0000_0000 {
            whole.negated()
        } else {
            whole
        };
        Some(Ratio { num, den })
    }
}

// ---------------------------------------------------------------------------
// Rounding to doubles
// ---------------------------------------------------------------------------

/// The first `j` from `k` on for which a fraction that is not negative lies below
/// `2^(j - 1021)`, and 2046 where there is none below that: the doubles up to
/// `2^(j - 1021)` are multiples of `2^(j - 1074)`.
pub open spec fn binade_from(f: (int, int), k: nat) -> nat
    decreases 2046 - k,
{
    if k >= 2046 || f.0 * pow2(1021) < f.1 * pow2(k) {
        k
    } else {
        binade_from(f, k + 1)
    }
}

/// The double nearest to a fraction that is not negative, of two equally near ones
/// the one with the even significand. Where it lies above all doubles it
/// `overflows`.
pub open spec fn double_of(f: (int, int)) -> (int, int) {
    let k = binade_from(f, 0);
    let n = nearest_even(f.0 * pow2(1074), f.1 * pow2(k));
    (n * pow2(k), pow2(1074) as int)
}

/// Whether a rounded fraction lies above all doubles, and is infinite as a double.
pub open spec fn overflows(d: (int, int)) -> bool {
    d.0 >= d.1 * pow2(1024)
}

/// Rounding to even is off by half at most.
proof fn lemma_nearest_even(x: int, y: int)
    requires
        x >= 0,
        y > 0,
    ensures
        0 <= x / y <= nearest_even(x, y) <= x / y + 1,
        -y <= 2 * (nearest_even(x, y) * y - x) <= y,
{
    vstd::arithmetic::div_mod::lemma_fundamental_div_mod(x, y);
    vstd::arithmetic::div_mod::lemma_mod_bound(x, y);
    vstd::arithmetic::div_mod::lemma_div_pos_is_pos(x, y);
    let q = x / y;
    let r = x % y;
    assert(q * y == y * q && (q + 1) * y == y * q + y) by (nonlinear_arith);
}

/// A fraction lies in the binade that is found for it, where there is one.
proof fn lemma_binade(f: (int, int), k: nat)
    requires
        k <= 2046,
        k > 0 ==> f.1 * pow2((k - 1) as nat) <= f.0 * pow2(1021),
    ensures
        k <= binade_from(f, k) <= 2046,
        binade_from(f, k) > 0 ==> f.1 * pow2((binade_from(f, k) - 1) as nat) <= f.0 * pow2(1021),
        binade_from(f, k) < 2046 ==> f.0 * pow2(1021) < f.1 * pow2(binade_from(f, k)),
    decreases 2046 - k,
{
    if k < 2046 && !(f.0 * pow2(1021) < f.1 * pow2(k)) {
        lemma_binade(f, k + 1);
    }
}

/// The binade of a fraction is the only one that it lies in.
proof fn lemma_binade_is(f: (int, int), k: nat, j: nat)
    requires
        f.1 > 0,
        k <= j < 2046,
        f.0 * pow2(1021) < f.1 * pow2(j),
        j > 0 ==> f.1 * pow2((j - 1) as nat) <= f.0 * pow2(1021),
    ensures
        binade_from(f, k) == j,
    decreases j - k,
{
    if k < j {
        let top = (j - 1) as nat;
        if k < top {
            vstd::arithmetic::power2::lemma_pow2_strictly_increases(k, top);
        }
        assert(f.1 * pow2(k) <= f.1 * pow2(top)) by (nonlinear_arith)
            requires
                f.1 > 0,
                pow2(k) <= pow2(top),
        ;
        lemma_binade_is(f, k + 1, j);
    }
}

/// How far a rounded fraction lies from the exact one, times both denominators.
pub open spec fn rounding_error(f: (int, int)) -> int {
    double_of(f).0 * f.1 - f.0 * double_of(f).1
}

/// What is rounded, in units of the last place of its binade.
proof fn lemma_double_of(f: (int, int))
    requires
        f.0 >= 0,
        f.1 > 0,
    ensures
        ({
            let k = binade_from(f, 0);
            let x = f.0 * pow2(1074);
            let y = f.1 * pow2(k);
            &&& x >= 0
            &&& y > 0
            &&& x == f.0 * pow2(1021) * pow2(53)
            &&& double_of(f).1 == pow2(1074) > 0
            &&& double_of(f).0 >= 0
            &&& rounding_error(f) == nearest_even(x, y) * y - x
            &&& -y <= 2 * rounding_error(f) <= y
        }),
{
    let k = binade_from(f, 0);
    let x = f.0 * pow2(1074);
    let y = f.1 * pow2(k);
    vstd::arithmetic::power2::lemma_pow2_pos(k);
    vstd::arithmetic::power2::lemma_pow2_pos(1074);
    vstd::arithmetic::power2::lemma_pow2_adds(1021, 53);
    let a = pow2(1021) as int;
    let b = pow2(53) as int;
    let c = pow2(1074) as int;
    let p = pow2(k) as int;
    assert(f.0 * c == f.0 * a * b) by (nonlinear_arith)
        requires
            c == a * b,
    ;
    assert(f.0 * c >= 0) by (nonlinear_arith)
        requires
            f.0 >= 0,
            c > 0,
    ;
    assert(f.1 * p > 0) by (nonlinear_arith)
        requires
            f.1 > 0,
            p > 0,
    ;
    lemma_nearest_even(x, y);
    let n = nearest_even(x, y);
    assert(n * p * f.1 == n * (f.1 * p)) by (nonlinear_arith);
    assert(n * p >= 0) by (nonlinear_arith)
        requires
            n >= 0,
            p > 0,
    ;
}

/// Rounding keeps what is not negative so.
pub proof fn lemma_double_is_not_negative(f: (int, int))
    requires
        f.0 >= 0,
        f.1 > 0,
    ensures
        double_of(f).0 >= 0,
        double_of(f).1 > 0,
{
    lemma_double_of(f);
}

/// The double nearest to a fraction of either sign, where it is finite.
pub open spec fn as_double(f: (int, int)) -> Option<(int, int)> {
    let d = double_of((if f.0 < 0 {
        -f.0
    } else {
        f.0
    }, f.1));
    if overflows(d) {
        None
    } else if f.0 < 0 {
        Some((-d.0, d.1))
    } else {
        Some(d)
    }
}

/// The double nearest to a fraction is on the same side of zero.
pub proof fn lemma_double_has_the_sign(f: (int, int))
    requires
        f.1 > 0,
    ensures
        as_double(f) matches Some(d) ==> d.1 > 0 && (if f.0 < 0 {
            d.0 <= 0
        } else {
            d.0 >= 0 && !overflows(d)
        }),
{
    lemma_double_of((if f.0 < 0 {
        -f.0
    } else {
        f.0
    }, f.1));
}

impl Ratio {
    /// The double nearest to a fraction, of two equally near ones the one with the
    /// even significand; `None` where that is infinite.
    pub fn to_double(&self) -> (r: Option<Ratio>)
        ensures
            match r {
                Some(v) => as_double((self.num(), self.den())) == Some((v.num(), v.den())),
                None => as_double((self.num(), self.den())) is None,
            },
    {
        proof {
            use_type_invariant(self);
        }
        let magnitude = Integer { negative: false, magnitude: self.num.magnitude.copy() };
        let ghost f = (magnitude@, self.den());
        let scaled = magnitude.times(&power_of_two(1021));
        let two = Integer::from_u64(2);
        let mut unit = self.den.copy();
        let mut k: u64 = 0;
        proof {
            vstd::arithmetic::power2::lemma2_to64();
            assert(f.1 * pow2(0) == f.1) by (nonlinear_arith)
                requires
                    pow2(0) == 1,
            ;
        }
        while k < 2046 && !scaled.less_than(&unit)
            invariant
                k <= 2046,
                two@ == 2,
                scaled@ == f.0 * pow2(1021),
                unit@ == f.1 * pow2(k as nat),
                binade_from(f, 0) == binade_from(f, k as nat),
            decreases 2046 - k,
        {
            proof {
                let p = pow2(k as nat) as int;
                let q = pow2((k + 1) as nat) as int;
                vstd::arithmetic::power2::lemma_pow2_unfold((k + 1) as nat);
                assert((f.1 * p) * 2 == f.1 * q) by (nonlinear_arith)
                    requires
                        q == 2 * p,
                ;
            }
            unit = unit.times(&two);
            k += 1;
        }
        assert(binade_from(f, 0) == k);
        proof {
            lemma_binade(f, 0);
            lemma_double_of(f);
        }
        let whole = power_of_two(1074);
        let n = magnitude.times(&whole).rounded_even(&unit);
        let value = Integer { negative: false, magnitude: n }.times(&power_of_two(k));
        if !value.less_than(&whole.times(&power_of_two(1024))) {
            return None;
        }
        let num = if self.num.less_than(&Integer::zero()) {
            value.negated()
        } else {
            value
        };
        Some(Ratio { num, den: whole })
    }
}

// ---------------------------------------------------------------------------
// Laws
// ---------------------------------------------------------------------------

/// Fractions below half of the end of the doubles round to a double.
pub proof fn law_small_fractions_are_finite(f: (int, int))
    requires
        f.0 >= 0,
        f.1 > 0,
        f.0 < f.1 * pow2(1023),
    ensures
        !overflows(double_of(f)),
{
    lemma_binade(f, 0);
    lemma_double_of(f);
    let k = binade_from(f, 0);
    let d = double_of(f);
    let y = f.1 * pow2(k);
    let a = f.0 * pow2(1021);
    let w = pow2(1074) as int;
    let x = f.0 * w;
    let h = pow2(1023) as int;
    let e = pow2(1024) as int;
    vstd::arithmetic::power2::lemma_pow2_pos(1023);
    vstd::arithmetic::power2::lemma_pow2_unfold(1024);
    assert(x < f.1 * (w * h)) by (nonlinear_arith)
        requires
            x == f.0 * w,
            f.0 < f.1 * h,
            w > 0,
    ;
    assert(2 * (d.0 * f.1) <= 2 * x + y);
    if k == 0 {
        vstd::arithmetic::power2::lemma2_to64();
        assert(y <= f.1 * (w * h)) by (nonlinear_arith)
            requires
                y == f.1 * 1,
                f.1 > 0,
                w > 0,
                h > 0,
        ;
    } else {
        let g = f.1 * pow2((k - 1) as nat);
        vstd::arithmetic::power2::lemma_pow2_unfold(k);
        assert(y == 2 * g) by (nonlinear_arith)
            requires
                y == f.1 * pow2(k),
                g == f.1 * pow2((k - 1) as nat),
                pow2(k) == 2 * pow2((k - 1) as nat),
        ;
        vstd::arithmetic::power2::lemma_pow2_pos(1021);
        vstd::arithmetic::power2::lemma_pow2_strictly_increases(0, 53);
        vstd::arithmetic::power2::lemma2_to64();
        assert(a >= 0) by (nonlinear_arith)
            requires
                a == f.0 * pow2(1021),
                f.0 >= 0,
        ;
        assert(2 * a <= x) by (nonlinear_arith)
            requires
                x == a * pow2(53),
                pow2(53) >= 2,
                a >= 0,
        ;
    }
    assert(d.0 * f.1 < f.1 * (w * e)) by (nonlinear_arith)
        requires
            2 * (d.0 * f.1) <= 2 * x + y,
            y <= x || y <= f.1 * (w * h),
            x < f.1 * (w * h),
            e == 2 * h,
            f.1 > 0,
            w > 0,
            h > 0,
    ;
    assert(d.0 < w * e) by (nonlinear_arith)
        requires
            d.0 * f.1 < f.1 * (w * e),
            f.1 > 0,
    ;
}

/// Rounding to a double moves a fraction by its 2^53rd part at most, but for
/// fractions that are smaller than every normal double.
pub proof fn law_doubles_are_near(f: (int, int))
    requires
        f.0 >= 0,
        f.1 > 0,
        binade_from(f, 0) > 0,
    ensures
        -(f.0 * double_of(f).1) <= pow2(53) * rounding_error(f) <= f.0 * double_of(f).1,
{
    lemma_binade(f, 0);
    lemma_double_of(f);
    let k = binade_from(f, 0);
    let y = f.1 * pow2(k);
    let h = f.1 * pow2((k - 1) as nat);
    let a = f.0 * pow2(1021);
    let b = pow2(53) as int;
    let e = rounding_error(f);
    vstd::arithmetic::power2::lemma_pow2_unfold(k);
    vstd::arithmetic::power2::lemma_pow2_pos(53);
    assert(y == 2 * h) by (nonlinear_arith)
        requires
            y == f.1 * pow2(k),
            h == f.1 * pow2((k - 1) as nat),
            pow2(k) == 2 * pow2((k - 1) as nat),
    ;
    assert(-(a * b) <= b * e <= a * b) by (nonlinear_arith)
        requires
            -y <= 2 * e <= y,
            y == 2 * h,
            h <= a,
            b > 0,
    ;
}

/// A whole number of last places that fits a significand is its own rounding.
proof fn lemma_kept(f: (int, int), m: int, k: nat)
    requires
        f.0 >= 0,
        f.1 > 0,
        k < 2046,
        0 <= m < pow2(53),
        k > 0 ==> pow2(52) <= m,
        f.0 * pow2(1074) == m * pow2(k) * f.1,
    ensures
        double_of(f).0 * f.1 == f.0 * double_of(f).1,
        !overflows(double_of(f)),
{
    let p = pow2(k) as int;
    let x = f.0 * pow2(1074);
    let y = f.1 * pow2(k);
    let a = f.0 * pow2(1021);
    let b = pow2(53) as int;
    vstd::arithmetic::power2::lemma_pow2_pos(k);
    vstd::arithmetic::power2::lemma_pow2_pos(53);
    vstd::arithmetic::power2::lemma_pow2_adds(1021, 53);
    assert(x == a * b) by (nonlinear_arith)
        requires
            x == f.0 * pow2(1074),
            a == f.0 * pow2(1021),
            b == pow2(53),
            pow2(1074) == pow2(1021) * pow2(53),
    ;
    assert(y > 0 && x == m * y) by (nonlinear_arith)
        requires
            x == m * p * f.1,
            y == f.1 * p,
            f.1 > 0,
            p > 0,
    ;
    assert(a < y) by (nonlinear_arith)
        requires
            a * b == m * y,
            m < b,
            y > 0,
            b > 0,
    ;
    if k > 0 {
        let h = f.1 * pow2((k - 1) as nat);
        vstd::arithmetic::power2::lemma_pow2_unfold(k);
        vstd::arithmetic::power2::lemma_pow2_unfold(53);
        vstd::arithmetic::power2::lemma_pow2_pos((k - 1) as nat);
        assert(y == 2 * h && h > 0) by (nonlinear_arith)
            requires
                y == f.1 * pow2(k),
                h == f.1 * pow2((k - 1) as nat),
                pow2(k) == 2 * pow2((k - 1) as nat),
                pow2((k - 1) as nat) > 0,
                f.1 > 0,
        ;
        assert(h <= a) by (nonlinear_arith)
            requires
                a * b == m * y,
                y == 2 * h,
                b <= 2 * m,
                h > 0,
                b > 0,
        ;
    }
    lemma_binade_is(f, 0, k);
    lemma_double_of(f);
    assert(nearest_even(x, y) == m) by {
        vstd::arithmetic::div_mod::lemma_div_by_multiple(m, y);
        vstd::arithmetic::div_mod::lemma_fundamental_div_mod(x, y);
        assert(y * m == m * y) by (nonlinear_arith);
    }
    vstd::arithmetic::power2::lemma_pow2_adds(1074, 1024);
    vstd::arithmetic::power2::lemma_pow2_adds(53, 2045);
    if k < 2045 {
        vstd::arithmetic::power2::lemma_pow2_strictly_increases(k, 2045);
    }
    assert(m * p < b * pow2(2045)) by (nonlinear_arith)
        requires
            0 <= m < b,
            0 < p <= pow2(2045),
    ;
}

/// Doubles that are not negative are left as they are.
pub proof fn law_doubles_are_kept(bits: u64)
    requires
        bits < 0x7ff0_0000_0000_0000,
    ensures
        ({
            let f = (double_num(bits), double_den(bits));
            &&& double_of(f).0 * f.1 == f.0 * double_of(f).1
            &&& !overflows(double_of(f))
        }),
{
    let f = (double_num(bits), double_den(bits));
    let m = double_significand(bits);
    let e = double_exponent(bits);
    let s = double_scale(bits);
    vstd::arithmetic::power2::lemma2_to64();
    vstd::arithmetic::power2::lemma2_to64_rest();
    assert(0 <= e < 0x7ff);
    let k = (s + 1074) as nat;
    if s > 0 {
        vstd::arithmetic::power2::lemma_pow2_adds(s as nat, 1074);
        vstd::arithmetic::power2::lemma_pow2_pos(s as nat);
        assert(f.0 >= 0 && f.0 * pow2(1074) == m * pow2(k) * 1) by (nonlinear_arith)
            requires
                f.0 == m * pow2(s as nat),
                pow2(k) == pow2(s as nat) * pow2(1074),
                m >= 0,
        ;
    } else {
        assert(f.0 == m);
        if s < 0 {
            vstd::arithmetic::power2::lemma_pow2_pos((-s) as nat);
            vstd::arithmetic::power2::lemma_pow2_adds(k, (-s) as nat);
        }
        assert(m * pow2(1074) == m * pow2(k) * f.1) by (nonlinear_arith)
            requires
                pow2(1074) == pow2(k) * f.1,
        ;
    }
    lemma_kept(f, m, k);
}

/// Cutting off leaves the whole part: on the same side of zero, and off by less than
/// one.
pub proof fn law_cutting_off_is_toward_zero(num: int, den: int)
    requires
        den > 0,
    ensures
        num >= 0 ==> toward_zero(num, den) >= 0 && toward_zero(num, den) * den <= num < (
        toward_zero(num, den) + 1) * den,
        num < 0 ==> toward_zero(num, den) <= 0 && (toward_zero(num, den) - 1) * den < num
            <= toward_zero(num, den) * den,
{
    let a = if num >= 0 {
        num
    } else {
        -num
    };
    let q = a / den;
    vstd::arithmetic::div_mod::lemma_fundamental_div_mod(a, den);
    vstd::arithmetic::div_mod::lemma_mod_bound(a, den);
    vstd::arithmetic::div_mod::lemma_div_pos_is_pos(a, den);
    assert(den * q == q * den && (q + 1) * den == q * den + den && (-q) * den == -(q * den) && (-q
        - 1) * den == -(q * den) - den) by (nonlinear_arith);
}

/// Rounding is off by half at most, and a half goes away from zero, or to the even
/// neighbour where that is asked for.
pub proof fn law_rounding_is_to_the_nearest(num: int, den: int)
    requires
        den > 0,
    ensures
        -den <= 2 * (nearest(num, den) * den - num) <= den,
        2 * (nearest(num, den) * den - num) == den ==> num > 0,
        2 * (nearest(num, den) * den - num) == -den ==> num < 0,
        num >= 0 ==> -den <= 2 * (nearest_even(num, den) * den - num) <= den,
        num >= 0 && (2 * (nearest_even(num, den) * den - num) == den || 2 * (nearest_even(num, den)
            * den - num) == -den) ==> nearest_even(num, den) % 2 == 0,
{
    let a = if num >= 0 {
        num
    } else {
        -num
    };
    let x = 2 * a + den;
    let y = 2 * den;
    let q = x / y;
    vstd::arithmetic::div_mod::lemma_fundamental_div_mod(x, y);
    vstd::arithmetic::div_mod::lemma_mod_bound(x, y);
    assert(y * q == 2 * (q * den) && (-q) * den == -(q * den)) by (nonlinear_arith)
        requires
            y == 2 * den,
    ;
    if num >= 0 {
        lemma_nearest_even(num, den);
        vstd::arithmetic::div_mod::lemma_fundamental_div_mod(num, den);
        vstd::arithmetic::div_mod::lemma_mod_bound(num, den);
        let p = num / den;
        assert(den * p == p * den && (p + 1) * den == p * den + den) by (nonlinear_arith);
    }
    if num == 0 {
        vstd::arithmetic::div_mod::lemma_basic_div(den, y);
        assert(0 * den == 0) by (nonlinear_arith);
    }
}

/// Numbers that an `i64` holds are kept, and others go to its nearer end.
pub proof fn law_saturation_keeps_what_fits(i: int)
    ensures
        -0x8000_0000_0000_0000 <= i <= 0x7fff_ffff_ffff_ffff ==> saturated(i) == i,
        i > 0x7fff_ffff_ffff_ffff ==> saturated(i) == 0x7fff_ffff_ffff_ffff,
        i < -0x8000_0000_0000_0000 ==> saturated(i) == -0x8000_0000_0000_0000,
{
}

} // verus!
