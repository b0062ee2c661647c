//! Exact fractions. The estimators divide counts by window lengths; the
//! quotients are kept as whole numbers, so that what is decided on them is
//! decided on exact values.

use vstd::arithmetic::div_mod::{
    lemma_fundamental_div_mod,
    lemma_fundamental_div_mod_converse_div,
    lemma_fundamental_div_mod_converse_mod,
    lemma_mod_bound,
};
use vstd::prelude::*;

verus! {

/// The fraction `numerator / denominator`, not reduced. The denominator is
/// positive wherever a fraction comes out of this library.
#[derive(Clone, Copy, Debug, PartialEq, Eq)]
pub struct Ratio {
    pub numerator: i128,
    pub denominator: u64,
}

/// The least whole number that is not below `num / den`, for a positive
/// `den`.
pub open spec fn ceil_div(num: int, den: int) -> int {
    if num % den == 0 {
        num / den
    } else {
        num / den + 1
    }
}

/// `value`, or the nearest end of the range of `usize` where it lies
/// outside.
pub open spec fn clamp_to_usize(value: int) -> usize {
    if value < 0 {
        0
    } else if value > usize::MAX {
        usize::MAX
    } else {
        value as usize
    }
}

impl Ratio {
    /// The fraction `0 / 1`.
    pub fn zero() -> (ratio: Ratio)
        ensures
            ratio == (Ratio { numerator: 0, denominator: 1 }),
    {
        Ratio { numerator: 0, denominator: 1 }
    }

    /// The fraction as a mixed number: the greatest whole number that is
    /// not above it, and what is left over.
    pub fn to_mixed(&self) -> (mixed: Mixed)
        requires
            self.denominator >= 1,
            self.numerator > i128::MIN,
        ensures
            mixed.is(self.numerator as int, self.denominator as int),
            self.numerator >= 0 ==> 0 <= mixed.whole <= self.numerator,
            self.numerator < 0 ==> self.numerator <= mixed.whole < 0,
    {
        let d = self.denominator as i128;
        if self.numerator >= 0 {
            let q = self.numerator / d;
            let r = self.numerator % d;
            proof {
                lemma_fundamental_div_mod(self.numerator as int, d as int);
                assert(0 <= q <= self.numerator) by (nonlinear_arith)
                    requires
                        self.numerator == d * q + r,
                        0 <= r < d,
                        self.numerator >= 0,
                ;
            }
            Mixed { whole: q, part: r, denominator: d }
        } else {
            let p = -self.numerator;
            let q = p / d;
            let r = p % d;
            proof {
                lemma_fundamental_div_mod(p as int, d as int);
                assert(0 <= q <= p) by (nonlinear_arith)
                    requires
                        p == d * q + r,
                        0 <= r < d,
                        p >= 0,
                ;
                assert(r > 0 ==> q + 1 <= p) by (nonlinear_arith)
                    requires
                        p == d * q + r,
                        0 <= r < d,
                        q >= 0,
                ;
            }
            if r == 0 {
                proof {
                    assert(self.numerator == (-q) * d + 0) by (nonlinear_arith)
                        requires
                            -self.numerator == d * q,
                    ;
                    lemma_fundamental_div_mod_converse_div(self.numerator as int, d as int, -q, 0);
                    lemma_fundamental_div_mod_converse_mod(self.numerator as int, d as int, -q, 0);
                    assert(q > 0) by (nonlinear_arith)
                        requires
                            p == d * q,
                            p > 0,
                            d > 0,
                    ;
                }
                Mixed { whole: -q, part: 0, denominator: d }
            } else {
                proof {
                    assert(self.numerator == (-q - 1) * d + (d - r)) by (nonlinear_arith)
                        requires
                            -self.numerator == d * q + r,
                    ;
                    lemma_fundamental_div_mod_converse_div(
                        self.numerator as int,
                        d as int,
                        -q - 1,
                        d - r,
                    );
                    lemma_fundamental_div_mod_converse_mod(
                        self.numerator as int,
                        d as int,
                        -q - 1,
                        d - r,
                    );
                }
                Mixed { whole: -q - 1, part: d - r, denominator: d }
            }
        }
    }
}

/// The whole part and the denominator of a mixed number that this library
/// computes with lie no further from zero than this.
pub const MAX_WHOLE: i128 = 0x1_0000_0000_0000_0000_0000_0000_0000;

/// The mixed number `whole + part / denominator`, with the part at least
/// zero and less than the denominator.
#[derive(Clone, Copy, Debug, PartialEq, Eq)]
pub struct Mixed {
    pub whole: i128,
    pub part: i128,
    pub denominator: i128,
}

impl Mixed {
    /// The mixed number is the fraction `num / den`, written over `den`.
    pub open spec fn is(self, num: int, den: int) -> bool {
        &&& den > 0
        &&& self.denominator == den
        &&& self.whole == num / den
        &&& self.part == num % den
    }

    /// The part is at least zero and less than the denominator.
    pub open spec fn proper(self) -> bool {
        0 <= self.part < self.denominator
    }

    /// The least whole number that is not below the mixed number.
    pub open spec fn ceiling(self) -> int {
        if self.part > 0 {
            self.whole + 1
        } else {
            self.whole as int
        }
    }

    /// Whether `count` is at least twice the mixed number and one.
    pub open spec fn twice_and_one_within(self, count: int) -> bool {
        let slack = count - 1 - 2 * self.whole;
        if slack <= 0 {
            slack == 0 && self.part == 0
        } else if slack == 1 {
            2 * self.part <= self.denominator
        } else {
            true
        }
    }

    /// A mixed number that is a fraction has the fraction's value, sign and
    /// ceiling, and compares as the fraction does.
    pub proof fn lemma_is(self, num: int, den: int, count: int)
        requires
            self.is(num, den),
        ensures
            self.proper(),
            num == self.whole * den + self.part,
            self.whole < 0 <==> num < 0,
            self.ceiling() == ceil_div(num, den),
            self.twice_and_one_within(count) <==> count * den >= 2 * num + den,
    {
        lemma_fundamental_div_mod(num, den);
        lemma_mod_bound(num, den);
        let w = self.whole as int;
        let p = self.part as int;
        assert(num == w * den + p) by (nonlinear_arith)
            requires
                num == den * w + p,
        ;
        assert(w < 0 <==> num < 0) by (nonlinear_arith)
            requires
                num == w * den + p,
                0 <= p < den,
        ;
        let slack = count - 1 - 2 * w;
        assert(count * den - (2 * num + den) == slack * den - 2 * p) by (nonlinear_arith)
            requires
                num == w * den + p,
                slack == count - 1 - 2 * w,
        ;
        if slack <= 0 {
            assert(slack * den <= 0) by (nonlinear_arith)
                requires
                    slack <= 0,
                    den > 0,
            ;
            if slack < 0 {
                assert(slack * den < 0) by (nonlinear_arith)
                    requires
                        slack < 0,
                        den > 0,
                ;
            }
        } else if slack >= 2 {
            assert(slack * den >= 2 * den) by (nonlinear_arith)
                requires
                    slack >= 2,
                    den > 0,
            ;
        } else {
            assert(slack * den == den) by (nonlinear_arith)
                requires
                    slack == 1,
            ;
        }
    }

    /// Whether the mixed number is below zero.
    pub fn is_negative(&self) -> (negative: bool)
        ensures
            negative == (self.whole < 0),
    {
        self.whole < 0
    }

    /// The ceiling of the mixed number, or the nearest end of the range of
    /// `usize` where the ceiling lies outside.
    pub fn ceil_to_usize(&self) -> (amount: usize)
        ensures
            amount == clamp_to_usize(self.ceiling()),
    {
        if self.whole < 0 {
            0
        } else if self.whole >= usize::MAX as i128 {
            usize::MAX
        } else if self.part > 0 {
            (self.whole + 1) as usize
        } else {
            self.whole as usize
        }
    }

    /// Whether `count` is at least twice the mixed number and one.
    pub fn twice_and_one_fit(&self, count: u32) -> (fit: bool)
        requires
            self.proper(),
            -MAX_WHOLE <= self.whole <= MAX_WHOLE,
            self.denominator <= MAX_WHOLE,
        ensures
            fit == self.twice_and_one_within(count as int),
    {
        let slack: i128 = count as i128 - 1 - 2 * self.whole;
        if slack <= 0 {
            slack == 0 && self.part == 0
        } else if slack == 1 {
            2 * self.part <= self.denominator
        } else {
            true
        }
    }
}

} // verus!
