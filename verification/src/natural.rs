//! Natural numbers of any size.
//!
//! Counts and timestamps are 64-bit, and a least-squares slope multiplies four
//! of them. `Natural` keeps such products exact, so that the burn-rate rules
//! never see a rounded or wrapped number.
use vstd::arithmetic::div_mod::lemma_fundamental_div_mod_converse;
use vstd::prelude::*;

verus! {

/// One more than the largest limb.
spec fn base() -> nat {
    0x1_0000_0000
}

/// The number that little-endian base-2^32 limbs stand for.
spec fn limbs_value(s: Seq<u32>) -> nat
    decreases s.len(),
{
    if s.len() == 0 {
        0
    } else {
        s[0] as nat + base() * limbs_value(s.drop_first())
    }
}

/// A natural number.
pub struct Natural {
    limbs: Vec<u32>,
}

impl View for Natural {
    type V = nat;

    closed spec fn view(&self) -> nat {
        limbs_value(self.limbs@)
    }
}

/// `base()` to the power `k`.
spec fn weight(k: nat) -> nat
    decreases k,
{
    if k == 0 {
        1
    } else {
        base() * weight((k - 1) as nat)
    }
}

/// The most significant limb counts `base()` to the power of its index.
proof fn lemma_limbs_push(s: Seq<u32>, d: u32)
    ensures
        limbs_value(s.push(d)) == limbs_value(s) + weight(s.len()) * d,
    decreases s.len(),
{
    if s.len() == 0 {
        assert(s.push(d).drop_first() =~= Seq::<u32>::empty());
        assert(limbs_value(s.push(d)) == d as nat + base() * limbs_value(s.push(d).drop_first()));
        assert(weight(0) * d == d) by (nonlinear_arith)
            requires
                weight(0) == 1,
        ;
    } else {
        assert(s.push(d).drop_first() =~= s.drop_first().push(d));
        lemma_limbs_push(s.drop_first(), d);
        let a = limbs_value(s.drop_first());
        let w = weight((s.len() - 1) as nat);
        assert(base() * (a + w * d) == base() * a + (base() * w) * d) by (nonlinear_arith);
    }
}

proof fn lemma_limbs_take(s: Seq<u32>, i: int)
    requires
        0 <= i < s.len(),
    ensures
        limbs_value(s.take(i + 1)) == limbs_value(s.take(i)) + weight(i as nat) * s[i],
{
    lemma_limbs_push(s.take(i), s[i]);
    assert(s.take(i).push(s[i]) =~= s.take(i + 1));
}

proof fn lemma_weight_positive(k: nat)
    ensures
        weight(k) > 0,
    decreases k,
{
    if k > 0 {
        lemma_weight_positive((k - 1) as nat);
        assert(base() * weight((k - 1) as nat) > 0) by (nonlinear_arith)
            requires
                weight((k - 1) as nat) > 0,
                base() > 0,
        ;
    }
}

impl Natural {
    /// Zero.
    pub fn zero() -> (r: Natural)
        ensures
            r@ == 0,
    {
        Natural { limbs: Vec::new() }
    }

    /// The number that limbs stand for, without its leading zeros.
    fn of_limbs(limbs: Vec<u32>) -> (r: Natural)
        ensures
            r@ == limbs_value(limbs@),
    {
        let mut limbs = limbs;
        let ghost value = limbs_value(limbs@);
        while limbs.len() > 0 && limbs[limbs.len() - 1] == 0
            invariant
                limbs_value(limbs@) == value,
            decreases limbs.len(),
        {
            proof {
                let init = limbs@.drop_last();
                lemma_limbs_push(init, 0);
                assert(init.push(0) =~= limbs@);
                assert(weight(init.len()) * 0 == 0) by (nonlinear_arith);
            }
            let _ = limbs.pop();
        }
        Natural { limbs }
    }

    /// The number `n`.
    pub fn from_u64(n: u64) -> (r: Natural)
        ensures
            r@ == n,
    {
        let lo: u32 = (n % 0x1_0000_0000) as u32;
        let hi: u32 = (n / 0x1_0000_0000) as u32;
        let mut limbs: Vec<u32> = Vec::new();
        limbs.push(lo);
        limbs.push(hi);
        proof {
            assert(limbs@.drop_first().drop_first() =~= Seq::<u32>::empty());
            reveal_with_fuel(limbs_value, 3);
            assert(limbs@.drop_first()[0] == hi);
        }
        Natural::of_limbs(limbs)
    }

    /// A copy.
    pub fn copy(&self) -> (r: Natural)
        ensures
            r@ == self@,
    {
        let mut limbs: Vec<u32> = Vec::new();
        let mut i: usize = 0;
        while i < self.limbs.len()
            invariant
                i <= self.limbs.len(),
                limbs@ =~= self.limbs@.take(i as int),
            decreases self.limbs.len() - i,
        {
            limbs.push(self.limbs[i]);
            i += 1;
        }
        assert(limbs@ =~= self.limbs@);
        Natural { limbs }
    }

    fn limb(&self, i: usize) -> (r: u32)
        ensures
            r == (if i < self.limbs@.len() {
                self.limbs@[i as int]
            } else {
                0
            }),
    {
        if i < self.limbs.len() {
            self.limbs[i]
        } else {
            0
        }
    }
}

/// The `i` lowest limbs of `s`, with zeros where `s` has none.
spec fn low(s: Seq<u32>, i: nat) -> nat
    decreases i,
{
    if i == 0 {
        0
    } else {
        low(s, (i - 1) as nat) + weight((i - 1) as nat) * (if i - 1 < s.len() {
            s[i - 1] as nat
        } else {
            0
        })
    }
}

proof fn lemma_low_take(s: Seq<u32>, i: nat)
    requires
        i <= s.len(),
    ensures
        low(s, i) == limbs_value(s.take(i as int)),
    decreases i,
{
    if i > 0 {
        lemma_low_take(s, (i - 1) as nat);
        lemma_limbs_take(s, i - 1);
    }
}

proof fn lemma_low_all(s: Seq<u32>, i: nat)
    requires
        s.len() <= i,
    ensures
        low(s, i) == limbs_value(s),
    decreases i,
{
    if i == s.len() {
        lemma_low_take(s, i);
        assert(s.take(i as int) =~= s);
    } else {
        lemma_low_all(s, (i - 1) as nat);
        assert(weight((i - 1) as nat) * 0 == 0) by (nonlinear_arith);
    }
}

proof fn lemma_low_push(s: Seq<u32>, d: u32, i: nat)
    requires
        i <= s.len(),
    ensures
        low(s.push(d), i) == low(s, i),
    decreases i,
{
    if i > 0 {
        lemma_low_push(s, d, (i - 1) as nat);
    }
}

proof fn lemma_low_bound(s: Seq<u32>, i: nat)
    ensures
        low(s, i) < weight(i),
    decreases i,
{
    if i > 0 {
        let k = (i - 1) as nat;
        lemma_low_bound(s, k);
        let d = if k < s.len() {
            s[k as int] as nat
        } else {
            0nat
        };
        assert(low(s, k) + weight(k) * d < base() * weight(k)) by (nonlinear_arith)
            requires
                low(s, k) < weight(k),
                d <= base() - 1,
        ;
    }
}

/// The value of limbs that hold exactly `s.len()` digits.
proof fn lemma_value_bound(s: Seq<u32>)
    ensures
        limbs_value(s) < weight(s.len()),
{
    lemma_low_all(s, s.len());
    lemma_low_bound(s, s.len());
}

/// Moving a carry from position `i` to position `i + 1` keeps the total.
proof fn lemma_carry(w: nat, v: nat, d: nat, c: nat, t: nat)
    requires
        t == d + base() * c,
    ensures
        (v + w * d) + (base() * w) * c == v + w * t,
{
    assert((v + w * d) + (base() * w) * c == v + w * (d + base() * c)) by (nonlinear_arith);
}

impl Natural {
    /// `self + other`.
    pub fn plus(&self, other: &Natural) -> (r: Natural)
        ensures
            r@ == self@ + other@,
    {
        let a: usize = self.limbs.len();
        let b: usize = other.limbs.len();
        let n: usize = if a < b {
            b
        } else {
            a
        };
        let mut limbs: Vec<u32> = Vec::new();
        let mut carry: u64 = 0;
        let mut i: usize = 0;
        assert(weight(0) * 0 == 0) by (nonlinear_arith);
        while i < n
            invariant
                i <= n,
                limbs@.len() == i,
                carry <= 1,
                limbs_value(limbs@) + weight(i as nat) * carry == low(self.limbs@, i as nat) + low(
                    other.limbs@,
                    i as nat,
                ),
            decreases n - i,
        {
            let x: u32 = self.limb(i);
            let y: u32 = other.limb(i);
            let t: u64 = x as u64 + y as u64 + carry;
            let d: u32 = (t % 0x1_0000_0000) as u32;
            let c: u64 = t / 0x1_0000_0000;
            proof {
                let w = weight(i as nat);
                lemma_limbs_push(limbs@, d);
                lemma_carry(w, limbs_value(limbs@), d as nat, c as nat, t as nat);
                assert(w * t == w * x + w * y + w * carry) by (nonlinear_arith)
                    requires
                        t == x + y + carry,
                ;
            }
            limbs.push(d);
            carry = c;
            i += 1;
        }
        proof {
            lemma_low_all(self.limbs@, n as nat);
            lemma_low_all(other.limbs@, n as nat);
            lemma_limbs_push(limbs@, carry as u32);
        }
        limbs.push(carry as u32);
        Natural::of_limbs(limbs)
    }

    /// `self - other`.
    pub fn minus(&self, other: &Natural) -> (r: Natural)
        requires
            other@ <= self@,
        ensures
            r@ == self@ - other@,
    {
        let a: usize = self.limbs.len();
        let b: usize = other.limbs.len();
        let n: usize = if a < b {
            b
        } else {
            a
        };
        let mut limbs: Vec<u32> = Vec::new();
        let mut borrow: u64 = 0;
        let mut i: usize = 0;
        assert(weight(0) * 0 == 0) by (nonlinear_arith);
        while i < n
            invariant
                i <= n,
                limbs@.len() == i,
                borrow <= 1,
                limbs_value(limbs@) + low(other.limbs@, i as nat) == low(self.limbs@, i as nat)
                    + weight(i as nat) * borrow,
            decreases n - i,
        {
            let x: u32 = self.limb(i);
            let y: u32 = other.limb(i);
            let t: u64 = x as u64 + 0x1_0000_0000 - y as u64 - borrow;
            let d: u32 = (t % 0x1_0000_0000) as u32;
            let c: u64 = 1 - t / 0x1_0000_0000;
            proof {
                let w = weight(i as nat);
                lemma_limbs_push(limbs@, d);
                assert(d + y + borrow == x + base() * c);
                assert(w * d + w * y + w * borrow == w * x + (base() * w) * c) by (nonlinear_arith)
                    requires
                        d + y + borrow == x + base() * c,
                ;
            }
            limbs.push(d);
            borrow = c;
            i += 1;
        }
        proof {
            lemma_low_all(self.limbs@, n as nat);
            lemma_low_all(other.limbs@, n as nat);
            lemma_value_bound(limbs@);
            let w = weight(n as nat);
            assert(w * borrow == 0 || borrow == 1) by (nonlinear_arith)
                requires
                    borrow <= 1,
            ;
            assert(w * 1 == w) by (nonlinear_arith);
        }
        Natural::of_limbs(limbs)
    }

    /// Whether `self <= other`.
    pub fn at_most(&self, other: &Natural) -> (r: bool)
        ensures
            r == (self@ <= other@),
    {
        let a: usize = self.limbs.len();
        let b: usize = other.limbs.len();
        let n: usize = if a < b {
            b
        } else {
            a
        };
        proof {
            lemma_low_all(self.limbs@, n as nat);
            lemma_low_all(other.limbs@, n as nat);
        }
        let mut i: usize = n;
        while i > 0
            invariant
                i <= n,
                self@ - low(self.limbs@, i as nat) == other@ - low(other.limbs@, i as nat),
            decreases i,
        {
            let x: u32 = self.limb(i - 1);
            let y: u32 = other.limb(i - 1);
            if x != y {
                proof {
                    let k = (i - 1) as nat;
                    let w = weight(k);
                    lemma_low_bound(self.limbs@, k);
                    lemma_low_bound(other.limbs@, k);
                    if x < y {
                        assert(w * x + w <= w * y) by (nonlinear_arith)
                            requires
                                x + 1 <= y,
                        ;
                    } else {
                        assert(w * y + w <= w * x) by (nonlinear_arith)
                            requires
                                y + 1 <= x,
                        ;
                    }
                }
                return x < y;
            }
            i -= 1;
        }
        true
    }

    /// `self * d`.
    fn times_limb(&self, d: u32) -> (r: Natural)
        ensures
            r@ == self@ * d,
    {
        let n: usize = self.limbs.len();
        let mut limbs: Vec<u32> = Vec::new();
        let mut carry: u64 = 0;
        let mut i: usize = 0;
        assert(weight(0) * 0 == 0) by (nonlinear_arith);
        assert(0 * d == 0) by (nonlinear_arith);
        while i < n
            invariant
                n == self.limbs@.len(),
                i <= n,
                limbs@.len() == i,
                carry < 0x1_0000_0000,
                limbs_value(limbs@) + weight(i as nat) * carry == low(self.limbs@, i as nat) * d,
            decreases n - i,
        {
            let x: u32 = self.limbs[i];
            assert(x * d <= 0xffff_ffff * 0xffff_ffff) by (nonlinear_arith)
                requires
                    x <= 0xffff_ffff,
                    d <= 0xffff_ffff,
            ;
            let t: u64 = (x as u64) * (d as u64) + carry;
            let e: u32 = (t % 0x1_0000_0000) as u32;
            let c: u64 = t / 0x1_0000_0000;
            proof {
                let w = weight(i as nat);
                let l = low(self.limbs@, i as nat);
                lemma_limbs_push(limbs@, e);
                lemma_carry(w, limbs_value(limbs@), e as nat, c as nat, t as nat);
                assert(w * t == w * (x * d) + w * carry) by (nonlinear_arith)
                    requires
                        t == x * d + carry,
                ;
                assert((l + w * x) * d == l * d + w * (x * d)) by (nonlinear_arith);
            }
            limbs.push(e);
            carry = c;
            i += 1;
        }
        proof {
            lemma_low_all(self.limbs@, n as nat);
            lemma_limbs_push(limbs@, carry as u32);
        }
        limbs.push(carry as u32);
        Natural::of_limbs(limbs)
    }

    /// `self * 2^32`.
    fn shifted(&self) -> (r: Natural)
        ensures
            r@ == base() * self@,
    {
        let mut limbs: Vec<u32> = Vec::new();
        limbs.push(0);
        let mut i: usize = 0;
        while i < self.limbs.len()
            invariant
                i <= self.limbs.len(),
                limbs@ =~= seq![0u32] + self.limbs@.take(i as int),
            decreases self.limbs.len() - i,
        {
            limbs.push(self.limbs[i]);
            i += 1;
        }
        assert(limbs@.drop_first() =~= self.limbs@);
        Natural::of_limbs(limbs)
    }

    /// `self * other`.
    pub fn times(&self, other: &Natural) -> (r: Natural)
        ensures
            r@ == self@ * other@,
    {
        let n: usize = other.limbs.len();
        let mut acc = Natural::zero();
        let mut j: usize = n;
        assert(other.limbs@.skip(n as int) =~= Seq::<u32>::empty());
        assert(self@ * 0 == 0) by (nonlinear_arith);
        while j > 0
            invariant
                n == other.limbs@.len(),
                j <= n,
                acc@ == self@ * limbs_value(other.limbs@.skip(j as int)),
            decreases j,
        {
            j -= 1;
            let d: u32 = other.limbs[j];
            proof {
                let rest = limbs_value(other.limbs@.skip(j + 1));
                assert(other.limbs@.skip(j as int).drop_first() =~= other.limbs@.skip(j + 1));
                assert(base() * (self@ * rest) + self@ * d == self@ * (d + base() * rest))
                    by (nonlinear_arith);
            }
            acc = acc.shifted().plus(&self.times_limb(d));
        }
        assert(other.limbs@.skip(0) =~= other.limbs@);
        acc
    }

    /// The whole part of `self / divisor`, or the largest `u64` where the
    /// quotient is larger than that.
    pub fn quotient(&self, divisor: &Natural) -> (r: u64)
        requires
            divisor@ > 0,
        ensures
            r == (if self@ / divisor@ <= u64::MAX {
                self@ / divisor@
            } else {
                u64::MAX as nat
            }),
    {
        let mut lo: u64 = 0;
        let mut hi: u64 = u64::MAX;
        assert(0 * divisor@ == 0) by (nonlinear_arith);
        while lo < hi
            invariant
                lo <= hi,
                lo * divisor@ <= self@,
                hi == u64::MAX || self@ < (hi + 1) * divisor@,
            decreases hi - lo,
        {
            let mid: u64 = hi - (hi - lo) / 2;
            let product = divisor.times(&Natural::from_u64(mid));
            assert(divisor@ * mid == mid * divisor@) by (nonlinear_arith);
            if product.at_most(self) {
                lo = mid;
            } else {
                hi = mid - 1;
            }
        }
        proof {
            let a = self@ as int;
            let b = divisor@ as int;
            if lo < u64::MAX {
                assert((lo + 1) * b == lo * b + b) by (nonlinear_arith);
                lemma_fundamental_div_mod_converse(a, b, lo as int, a - lo * b);
            } else {
                vstd::arithmetic::div_mod::lemma_div_is_ordered(lo * b, a, b);
                vstd::arithmetic::div_mod::lemma_div_multiples_vanish(lo as int, b);
                assert(b * lo == lo * b) by (nonlinear_arith);
            }
        }
        lo
    }

    /// The quotient and the remainder of `self / divisor`.
    pub fn divided(&self, divisor: &Natural) -> (r: (Natural, Natural))
        requires
            divisor@ > 0,
        ensures
            r.0@ == self@ / divisor@,
            r.1@ == self@ % divisor@,
        decreases
                (if divisor@ <= self@ {
                    self@ - divisor@ + 1
                } else {
                    0
                }),
    {
        let ghost a = self@ as int;
        let ghost b = divisor@ as int;
        if !divisor.at_most(self) {
            proof {
                lemma_fundamental_div_mod_converse(a, b, 0, a);
            }
            return (Natural::zero(), self.copy());
        }
        let (half, rest) = self.divided(&divisor.plus(divisor));
        let even = half.plus(&half);
        let ghost h = half@ as int;
        let ghost t = rest@ as int;
        proof {
            vstd::arithmetic::div_mod::lemma_fundamental_div_mod(a, 2 * b);
            vstd::arithmetic::div_mod::lemma_mod_bound(a, 2 * b);
            assert((2 * b) * h == (2 * h) * b && (2 * h + 1) * b == (2 * h) * b + b)
                by (nonlinear_arith);
        }
        if divisor.at_most(&rest) {
            proof {
                lemma_fundamental_div_mod_converse(a, b, 2 * h + 1, t - b);
            }
            (even.plus(&Natural::from_u64(1)), rest.minus(divisor))
        } else {
            proof {
                lemma_fundamental_div_mod_converse(a, b, 2 * h, t);
            }
            (even, rest)
        }
    }

    /// All but the last decimal digit, and that digit.
    pub fn tenth(&self) -> (r: (Natural, u8))
        ensures
            r.0@ == self@ / 10,
            r.1 == self@ % 10,
    {
        let (rest, last) = self.divided(&Natural::from_u64(10));
        assert(last@ / 1 == last@);
        let d: u64 = last.quotient(&Natural::from_u64(1));
        (rest, d as u8)
    }
}

} // verus!
