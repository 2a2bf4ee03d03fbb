//! Exact rational values for ray parameters.
//!
//! A ray parameter `t` produced by the intersection kernels is a quotient of
//! two bounded integers. Values are kept unreduced, with a positive
//! denominator; comparisons cross-multiply in `i128`, which cannot overflow
//! for `i64` parts.
use vstd::prelude::*;

verus! {

/// A rational number `num / den` with `den > 0` (see [`Rat::wf`]).
#[derive(Copy, Clone, Debug, PartialEq, Eq, Structural)]
pub struct Rat {
    pub num: i64,
    pub den: i64,
}

/// `an / ad <= bn / bd`, for positive denominators.
pub open spec fn spec_rat_le(an: int, ad: int, bn: int, bd: int) -> bool {
    an * bd <= bn * ad
}

/// Both quotients denote the same rational.
pub open spec fn spec_rat_eq(an: int, ad: int, bn: int, bd: int) -> bool {
    an * bd == bn * ad
}

impl Rat {
    pub open spec fn wf(self) -> bool {
        self.den > 0
    }

    /// `self <= other` as rationals.
    pub open spec fn spec_le(self, other: Rat) -> bool {
        spec_rat_le(self.num as int, self.den as int, other.num as int, other.den as int)
    }

    /// Exact comparison by cross-multiplication.
    pub fn le(&self, other: &Rat) -> (r: bool)
        requires
            self.wf(),
            other.wf(),
        ensures
            r == self.spec_le(*other),
    {
        proof {
            crate::vec3::lemma_mul_bound(
                self.num as int,
                other.den as int,
                0x8000_0000_0000_0000,
                0x8000_0000_0000_0000,
            );
            crate::vec3::lemma_mul_bound(
                other.num as int,
                self.den as int,
                0x8000_0000_0000_0000,
                0x8000_0000_0000_0000,
            );
        }
        (self.num as i128) * (other.den as i128) <= (other.num as i128) * (self.den as i128)
    }
}

/// Transitivity of [`spec_rat_le`].
pub proof fn lemma_rat_le_trans(an: int, ad: int, bn: int, bd: int, cn: int, cd: int)
    by (nonlinear_arith)
    requires
        ad > 0,
        bd > 0,
        cd > 0,
        spec_rat_le(an, ad, bn, bd),
        spec_rat_le(bn, bd, cn, cd),
    ensures
        spec_rat_le(an, ad, cn, cd),
{
    assert((an * cd) * bd == (an * bd) * cd);
    assert((an * bd) * cd <= (bn * ad) * cd);
    assert((bn * ad) * cd == (bn * cd) * ad);
    assert((bn * cd) * ad <= (cn * bd) * ad);
    assert((cn * bd) * ad == (cn * ad) * bd);
}

/// The order is total: of two rationals one is `<=` the other.
pub proof fn lemma_rat_le_total(an: int, ad: int, bn: int, bd: int)
    requires
        ad > 0,
        bd > 0,
    ensures
        spec_rat_le(an, ad, bn, bd) || spec_rat_le(bn, bd, an, ad),
{
}

/// Mutual `<=` means the quotients are equal.
pub proof fn lemma_rat_le_antisymm(an: int, ad: int, bn: int, bd: int)
    requires
        ad > 0,
        bd > 0,
        spec_rat_le(an, ad, bn, bd),
        spec_rat_le(bn, bd, an, ad),
    ensures
        spec_rat_eq(an, ad, bn, bd),
{
}

} // verus!
