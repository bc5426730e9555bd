//! An exact fixed-point fraction in `[0, 1]`, stored in parts per million.
//!
//! Catch weights and population-model rates are held in this type. All of its
//! arithmetic is exact integer arithmetic, so a chain of saturating
//! subtractions reaches zero exactly once the subtracted weights cover the
//! starting value; nothing here is "close to zero".

use vstd::prelude::*;

verus! {

use vstd::arithmetic::div_mod::{
    lemma_div_is_ordered,
    lemma_fundamental_div_mod,
    lemma_multiply_divide_lt,
};
use vstd::arithmetic::mul::lemma_mul_inequality;

/// Number of parts that make up one whole.
pub const PARTS_PER_WHOLE: u32 = 1_000_000;

/// The fraction `numerator / denominator`, rounded up to the next part and
/// clamped to one whole. Rounding up keeps a family of weights built with
/// `from_ratio` from summing to less than the whole they were cut from.
pub open spec fn ratio_parts(numerator: nat, denominator: nat) -> nat
    recommends
        denominator > 0,
{
    if numerator >= denominator {
        PARTS_PER_WHOLE as nat
    } else {
        ((numerator * (PARTS_PER_WHOLE as nat) + denominator - 1) / (denominator as int)) as nat
    }
}

/// A saturating fractional value in `[0, 1]`: `parts` parts per
/// [`PARTS_PER_WHOLE`].
#[derive(Clone, Copy, Debug, PartialEq, Eq, Structural)]
pub struct Probability {
    pub parts: u32,
}

impl Probability {
    /// A probability never exceeds one whole.
    pub open spec fn inv(self) -> bool {
        self.parts <= PARTS_PER_WHOLE
    }

    /// The fraction that is certain not to happen.
    pub fn zero() -> (r: Probability)
        ensures
            r.parts == 0,
            r.inv(),
    {
        Probability { parts: 0 }
    }

    /// The fraction that is certain to happen.
    pub fn one() -> (r: Probability)
        ensures
            r.parts == PARTS_PER_WHOLE,
            r.inv(),
    {
        Probability { parts: PARTS_PER_WHOLE }
    }

    /// Builds a probability directly from parts, clamped to one whole.
    pub fn from_parts(parts: u32) -> (r: Probability)
        ensures
            r.parts == if parts > PARTS_PER_WHOLE {
                PARTS_PER_WHOLE as int
            } else {
                parts as int
            },
            r.inv(),
    {
        if parts > PARTS_PER_WHOLE {
            Probability { parts: PARTS_PER_WHOLE }
        } else {
            Probability { parts }
        }
    }

    /// Builds the clamped fraction `numerator / denominator`. The caller
    /// guarantees that the denominator is not zero.
    pub fn from_ratio(numerator: u64, denominator: u64) -> (r: Probability)
        requires
            denominator > 0,
        ensures
            r.parts == ratio_parts(numerator as nat, denominator as nat),
            r.inv(),
    {
        if numerator >= denominator {
            Probability { parts: PARTS_PER_WHOLE }
        } else {
            proof {
                lemma_mul_inequality(numerator as int, u64::MAX as int, PARTS_PER_WHOLE as int);
            }
            let num: u128 = (numerator as u128) * (PARTS_PER_WHOLE as u128) + (denominator as u128)
                - 1;
            let q: u128 = num / (denominator as u128);
            proof {
                lemma_ratio_parts_le_whole(numerator as nat, denominator as nat);
            }
            Probability { parts: q as u32 }
        }
    }

    /// `max(0, self - other)`: subtraction that stops exactly at zero.
    pub fn saturating_sub(self, other: Probability) -> (r: Probability)
        requires
            self.inv(),
        ensures
            r.parts == if self.parts >= other.parts {
                self.parts - other.parts
            } else {
                0
            },
            r.inv(),
    {
        if self.parts >= other.parts {
            Probability { parts: self.parts - other.parts }
        } else {
            Probability { parts: 0 }
        }
    }

    /// `min(1, self + other)`: addition that stops exactly at one.
    pub fn saturating_add(self, other: Probability) -> (r: Probability)
        requires
            self.inv(),
            other.inv(),
        ensures
            r.parts == if self.parts + other.parts > PARTS_PER_WHOLE {
                PARTS_PER_WHOLE as int
            } else {
                self.parts + other.parts
            },
            r.inv(),
    {
        let sum: u32 = self.parts + other.parts;
        if sum > PARTS_PER_WHOLE {
            Probability { parts: PARTS_PER_WHOLE }
        } else {
            Probability { parts: sum }
        }
    }
}

/// A ratio of a part to its whole never exceeds one whole.
pub proof fn lemma_ratio_parts_le_whole(numerator: nat, denominator: nat)
    requires
        denominator > 0,
    ensures
        ratio_parts(numerator, denominator) <= PARTS_PER_WHOLE,
{
    if numerator < denominator {
        let w = PARTS_PER_WHOLE as int;
        let n = numerator as int;
        let d = denominator as int;
        lemma_mul_inequality(n, d - 1, w);
        assert(n * w + d - 1 < d * (w + 1)) by {
            assert((d - 1) * w + d == d * (w + 1) - w) by {
                vstd::arithmetic::mul::lemma_mul_is_distributive_sub_other_way(w, d, 1);
                vstd::arithmetic::mul::lemma_mul_is_distributive_add(d, w, 1);
            }
        }
        lemma_multiply_divide_lt(n * w + d - 1, d, w + 1);
    }
}

/// Rounding up loses nothing: the rounded ratio, scaled back by the
/// denominator, still covers the numerator's share of the whole.
pub proof fn lemma_ratio_parts_covers(numerator: nat, denominator: nat)
    requires
        0 < denominator,
        numerator <= denominator,
    ensures
        ratio_parts(numerator, denominator) * denominator >= numerator * (PARTS_PER_WHOLE as nat),
{
    let w = PARTS_PER_WHOLE as int;
    let n = numerator as int;
    let d = denominator as int;
    if numerator >= denominator {
        assert(n == d);
        assert(w * d >= n * w) by {
            vstd::arithmetic::mul::lemma_mul_is_commutative(w, d);
        }
    } else {
        let x = n * w + d - 1;
        let q = x / d;
        lemma_fundamental_div_mod(x, d);
        assert(x % d < d) by {
            vstd::arithmetic::div_mod::lemma_mod_bound(x, d);
        }
        assert(d * q >= n * w);
        assert(q * d >= n * w) by {
            vstd::arithmetic::mul::lemma_mul_is_commutative(d, q);
        }
    }
}

} // verus!
