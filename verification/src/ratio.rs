//! Exact rational arithmetic over machine integers.
//!
//! Rewards, discounted returns, advantages and the clipped-surrogate loss are
//! all exact rationals here.  A `Ratio` is a numerator/denominator pair of
//! `i128` with a positive denominator; its mathematical value is the ghost
//! pair [`Rat`] of unbounded integers.  Fractions are not reduced, so every
//! operation either carries a precondition that the exact result fits
//! (`*_fits`) or is a `checked_*` variant that reports overflow instead.

use vstd::prelude::*;

verus! {

/// Mathematical value of a rational: an unbounded numerator/denominator pair.
pub ghost struct Rat {
    pub n: int,
    pub d: int,
}

/// A rational is well formed when its denominator is positive.
pub open spec fn rat_wf(a: Rat) -> bool {
    a.d > 0
}

/// The rational `i / 1`.
pub open spec fn rat_of(i: int) -> Rat {
    Rat { n: i, d: 1 }
}

/// Exact sum, on the product of the denominators.
pub open spec fn rat_add(a: Rat, b: Rat) -> Rat {
    Rat { n: a.n * b.d + b.n * a.d, d: a.d * b.d }
}

/// Exact difference, on the product of the denominators.
pub open spec fn rat_sub(a: Rat, b: Rat) -> Rat {
    Rat { n: a.n * b.d - b.n * a.d, d: a.d * b.d }
}

/// Exact product.
pub open spec fn rat_mul(a: Rat, b: Rat) -> Rat {
    Rat { n: a.n * b.n, d: a.d * b.d }
}

/// Negation.
pub open spec fn rat_neg(a: Rat) -> Rat {
    Rat { n: -a.n, d: a.d }
}

/// `a <= b` as values, by cross multiplication (denominators positive).
pub open spec fn rat_le(a: Rat, b: Rat) -> bool {
    a.n * b.d <= b.n * a.d
}

/// `a < b` as values, by cross multiplication (denominators positive).
pub open spec fn rat_lt(a: Rat, b: Rat) -> bool {
    a.n * b.d < b.n * a.d
}

/// Equality as values: `a` and `b` denote the same rational number.
pub open spec fn rat_eqv(a: Rat, b: Rat) -> bool {
    a.n * b.d == b.n * a.d
}

/// The smaller of two rationals; `a` on ties.
pub open spec fn rat_min(a: Rat, b: Rat) -> Rat {
    if rat_le(a, b) {
        a
    } else {
        b
    }
}

/// `x` forced into the interval `[lo, hi]`.
pub open spec fn rat_clamp(x: Rat, lo: Rat, hi: Rat) -> Rat {
    if rat_lt(x, lo) {
        lo
    } else if rat_lt(hi, x) {
        hi
    } else {
        x
    }
}

/// `x` is representable as an `i128`.
pub open spec fn fits_i128(x: int) -> bool {
    i128::MIN <= x <= i128::MAX
}

/// Every intermediate of the exact sum of `a` and `b` fits in an `i128`.
pub open spec fn add_fits(a: Rat, b: Rat) -> bool {
    &&& fits_i128(a.n * b.d)
    &&& fits_i128(b.n * a.d)
    &&& fits_i128(a.n * b.d + b.n * a.d)
    &&& fits_i128(a.d * b.d)
}

/// Every intermediate of the exact difference of `a` and `b` fits in an `i128`.
pub open spec fn sub_fits(a: Rat, b: Rat) -> bool {
    &&& fits_i128(a.n * b.d)
    &&& fits_i128(b.n * a.d)
    &&& fits_i128(a.n * b.d - b.n * a.d)
    &&& fits_i128(a.d * b.d)
}

/// Both components of the exact product of `a` and `b` fit in an `i128`.
pub open spec fn mul_fits(a: Rat, b: Rat) -> bool {
    &&& fits_i128(a.n * b.n)
    &&& fits_i128(a.d * b.d)
}

/// Both cross products of `a` and `b` fit in an `i128`.
pub open spec fn cmp_fits(a: Rat, b: Rat) -> bool {
    &&& fits_i128(a.n * b.d)
    &&& fits_i128(b.n * a.d)
}

/// An exact rational held in machine integers; invariant: `den > 0`.
#[derive(Clone, Copy, Debug, PartialEq, Eq, Structural)]
pub struct Ratio {
    pub num: i128,
    pub den: i128,
}

impl View for Ratio {
    type V = Rat;

    open spec fn view(&self) -> Rat {
        Rat { n: self.num as int, d: self.den as int }
    }
}

impl Ratio {
    /// The denominator is positive.
    pub open spec fn wf(self) -> bool {
        self.den > 0
    }

    pub fn new(num: i128, den: i128) -> (r: Ratio)
        requires
            den > 0,
        ensures
            r.num == num,
            r.den == den,
            r.wf(),
    {
        Ratio { num, den }
    }

    /// The rational `n / 1`.
    pub fn from_int(n: i64) -> (r: Ratio)
        ensures
            r@ == rat_of(n as int),
            r.wf(),
    {
        Ratio { num: n as i128, den: 1 }
    }

    /// The rational zero.
    pub fn zero() -> (r: Ratio)
        ensures
            r@ == rat_of(0),
            r.wf(),
    {
        Ratio { num: 0, den: 1 }
    }

    pub fn add(&self, other: &Ratio) -> (r: Ratio)
        requires
            self.wf(),
            other.wf(),
            add_fits(self@, other@),
        ensures
            r@ == rat_add(self@, other@),
            r.wf(),
    {
        proof {
            lemma_pos_mul_pos(self.den as int, other.den as int);
        }
        Ratio { num: self.num * other.den + other.num * self.den, den: self.den * other.den }
    }

    pub fn sub(&self, other: &Ratio) -> (r: Ratio)
        requires
            self.wf(),
            other.wf(),
            sub_fits(self@, other@),
        ensures
            r@ == rat_sub(self@, other@),
            r.wf(),
    {
        proof {
            lemma_pos_mul_pos(self.den as int, other.den as int);
        }
        Ratio { num: self.num * other.den - other.num * self.den, den: self.den * other.den }
    }

    pub fn mul(&self, other: &Ratio) -> (r: Ratio)
        requires
            self.wf(),
            other.wf(),
            mul_fits(self@, other@),
        ensures
            r@ == rat_mul(self@, other@),
            r.wf(),
    {
        proof {
            lemma_pos_mul_pos(self.den as int, other.den as int);
        }
        Ratio { num: self.num * other.num, den: self.den * other.den }
    }

    /// Whether `self <= other` as rational values.
    pub fn le(&self, other: &Ratio) -> (r: bool)
        requires
            self.wf(),
            other.wf(),
            cmp_fits(self@, other@),
        ensures
            r == rat_le(self@, other@),
    {
        self.num * other.den <= other.num * self.den
    }

    /// Exact sum, or `None` when an intermediate would overflow an `i128`.
    pub fn checked_add(&self, other: &Ratio) -> (r: Option<Ratio>)
        requires
            self.wf(),
            other.wf(),
        ensures
            r is Some <==> add_fits(self@, other@),
            r is Some ==> r->0@ == rat_add(self@, other@) && r->0.wf(),
    {
        proof {
            lemma_pos_mul_pos(self.den as int, other.den as int);
        }
        let n1 = match self.num.checked_mul(other.den) {
            Some(v) => v,
            None => {
                return None;
            },
        };
        let n2 = match other.num.checked_mul(self.den) {
            Some(v) => v,
            None => {
                return None;
            },
        };
        let n = match n1.checked_add(n2) {
            Some(v) => v,
            None => {
                return None;
            },
        };
        let d = match self.den.checked_mul(other.den) {
            Some(v) => v,
            None => {
                return None;
            },
        };
        Some(Ratio { num: n, den: d })
    }

    /// Exact difference, or `None` when an intermediate would overflow.
    pub fn checked_sub(&self, other: &Ratio) -> (r: Option<Ratio>)
        requires
            self.wf(),
            other.wf(),
        ensures
            r is Some <==> sub_fits(self@, other@),
            r is Some ==> r->0@ == rat_sub(self@, other@) && r->0.wf(),
    {
        proof {
            lemma_pos_mul_pos(self.den as int, other.den as int);
        }
        let n1 = match self.num.checked_mul(other.den) {
            Some(v) => v,
            None => {
                return None;
            },
        };
        let n2 = match other.num.checked_mul(self.den) {
            Some(v) => v,
            None => {
                return None;
            },
        };
        let n = match n1.checked_sub(n2) {
            Some(v) => v,
            None => {
                return None;
            },
        };
        let d = match self.den.checked_mul(other.den) {
            Some(v) => v,
            None => {
                return None;
            },
        };
        Some(Ratio { num: n, den: d })
    }

    /// Exact product, or `None` when a component would overflow.
    pub fn checked_mul(&self, other: &Ratio) -> (r: Option<Ratio>)
        requires
            self.wf(),
            other.wf(),
        ensures
            r is Some <==> mul_fits(self@, other@),
            r is Some ==> r->0@ == rat_mul(self@, other@) && r->0.wf(),
    {
        proof {
            lemma_pos_mul_pos(self.den as int, other.den as int);
        }
        let n = match self.num.checked_mul(other.num) {
            Some(v) => v,
            None => {
                return None;
            },
        };
        let d = match self.den.checked_mul(other.den) {
            Some(v) => v,
            None => {
                return None;
            },
        };
        Some(Ratio { num: n, den: d })
    }

    /// Negation; `None` only for the one numerator with no negation in `i128`.
    pub fn checked_neg(&self) -> (r: Option<Ratio>)
        requires
            self.wf(),
        ensures
            r is Some <==> fits_i128(-(self@.n)),
            r is Some ==> r->0@ == rat_neg(self@) && r->0.wf(),
    {
        if self.num == i128::MIN {
            None
        } else {
            Some(Ratio { num: -self.num, den: self.den })
        }
    }

    /// `self <= other`, or `None` when a cross product would overflow.
    pub fn checked_le(&self, other: &Ratio) -> (r: Option<bool>)
        requires
            self.wf(),
            other.wf(),
        ensures
            r is Some <==> cmp_fits(self@, other@),
            r is Some ==> r->0 == rat_le(self@, other@),
    {
        let n1 = match self.num.checked_mul(other.den) {
            Some(v) => v,
            None => {
                return None;
            },
        };
        let n2 = match other.num.checked_mul(self.den) {
            Some(v) => v,
            None => {
                return None;
            },
        };
        Some(n1 <= n2)
    }

    /// The smaller of the two values, or `None` when comparison overflows.
    pub fn checked_min(&self, other: &Ratio) -> (r: Option<Ratio>)
        requires
            self.wf(),
            other.wf(),
        ensures
            r is Some <==> cmp_fits(self@, other@),
            r is Some ==> r->0@ == rat_min(self@, other@) && r->0.wf(),
    {
        match self.checked_le(other) {
            Some(le) => if le {
                Some(*self)
            } else {
                Some(*other)
            },
            None => None,
        }
    }

    /// `self` forced into `[lo, hi]`, or `None` when a comparison overflows.
    pub fn checked_clamp(&self, lo: &Ratio, hi: &Ratio) -> (r: Option<Ratio>)
        requires
            self.wf(),
            lo.wf(),
            hi.wf(),
        ensures
            r is Some <==> cmp_fits(lo@, self@) && cmp_fits(self@, hi@),
            r is Some ==> r->0@ == rat_clamp(self@, lo@, hi@) && r->0.wf(),
    {
        let below = match lo.checked_le(self) {
            Some(le) => !le,
            None => {
                return None;
            },
        };
        let above = match self.checked_le(hi) {
            Some(le) => !le,
            None => {
                return None;
            },
        };
        if below {
            Some(*lo)
        } else if above {
            Some(*hi)
        } else {
            Some(*self)
        }
    }
}

/// A product is bounded by the product of the bounds.
pub proof fn lemma_mul_bound(a: int, b: int, aa: int, bb: int)
    requires
        -aa <= a <= aa,
        -bb <= b <= bb,
        0 <= aa,
        0 <= bb,
    ensures
        -(aa * bb) <= a * b <= aa * bb,
{
    assert(-(aa * bb) <= a * b <= aa * bb) by (nonlinear_arith)
        requires
            -aa <= a <= aa,
            -bb <= b <= bb,
            0 <= aa,
            0 <= bb,
    ;
}

/// The product of two positive integers is positive.
pub proof fn lemma_pos_mul_pos(a: int, b: int)
    requires
        a > 0,
        b > 0,
    ensures
        a * b > 0,
{
    assert(a * b > 0) by (nonlinear_arith)
        requires
            a > 0,
            b > 0,
    ;
}

} // verus!
