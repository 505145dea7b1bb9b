//! Exact quotients of two unsigned integers, for results that are not whole.

use vstd::prelude::*;

verus! {

/// A quotient as a mathematical value.
pub struct Fraction {
    pub num: nat,
    pub den: nat,
}

impl Fraction {
    /// The quotient of value zero that the library hands out.
    pub open spec fn zero() -> Fraction {
        Fraction { num: 0, den: 1 }
    }

    /// The quotient `num / den`, or zero where `den` is zero.
    pub open spec fn of(num: nat, den: nat) -> Fraction {
        if den == 0 {
            Fraction::zero()
        } else {
            Fraction { num, den }
        }
    }
}

/// The exact quotient `num / den` of two integers, `den` above zero. It is
/// kept as given, not reduced: equal values can differ as pairs.
#[derive(Debug, Clone, Copy)]
pub struct Ratio {
    num: u128,
    den: u128,
}

impl View for Ratio {
    type V = Fraction;

    closed spec fn view(&self) -> Fraction {
        Fraction { num: self.num as nat, den: self.den as nat }
    }
}

impl Ratio {
    #[verifier::type_invariant]
    pub(crate) open spec fn inv(self) -> bool {
        self@.den > 0
    }

    /// Zero, as `0 / 1`.
    pub fn zero() -> (ratio: Ratio)
        ensures
            ratio@ == Fraction::zero(),
    {
        Ratio { num: 0, den: 1 }
    }

    /// `num / den`, or zero where `den` is zero.
    pub fn new(num: u128, den: u128) -> (ratio: Ratio)
        ensures
            ratio@ == Fraction::of(num as nat, den as nat),
    {
        if den == 0 {
            Ratio { num: 0, den: 1 }
        } else {
            Ratio { num, den }
        }
    }

    /// The dividend.
    pub fn num(&self) -> (num: u128)
        ensures
            num == self@.num,
    {
        self.num
    }

    /// The divisor, which is not zero.
    pub fn den(&self) -> (den: u128)
        ensures
            den == self@.den,
            den > 0,
    {
        proof {
            use_type_invariant(self);
        }
        self.den
    }

    /// The quotient rounded down to a whole number.
    pub fn floor(&self) -> (whole: u128)
        ensures
            self@.den > 0,
            whole == self@.num / self@.den,
    {
        proof {
            use_type_invariant(self);
        }
        self.num / self.den
    }

    /// Whether the value is zero.
    pub fn is_zero(&self) -> (zero: bool)
        ensures
            zero == (self@.num == 0),
    {
        self.num == 0
    }
}

} // verus!
