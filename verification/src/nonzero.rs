//! Integers that are never zero.

use vstd::prelude::*;

verus! {

/// A `u16` that is not zero.
#[derive(Clone, Copy, Debug, Hash, PartialEq, Eq, Structural)]
pub struct NonZeroU16 {
    value: u16,
}

impl NonZeroU16 {
    #[verifier::type_invariant]
    spec fn is_not_zero(self) -> bool {
        self.value != 0
    }

    pub closed spec fn view(&self) -> u16 {
        self.value
    }

    pub fn new(value: u16) -> (result: Option<Self>)
        ensures
            result is Some <==> value != 0,
            result matches Some(number) ==> number@ == value,
    {
        if value == 0 {
            None
        } else {
            Some(NonZeroU16 { value })
        }
    }

    /// The smallest number that is not zero.
    pub fn min_value() -> (number: Self)
        ensures
            number@ == 1,
    {
        NonZeroU16 { value: 1 }
    }

    pub fn get(self) -> (value: u16)
        ensures
            value == self@,
            value != 0,
    {
        proof {
            use_type_invariant(&self);
        }
        self.value
    }

    /// The product, or the biggest `u16` if the product does not fit.
    pub fn saturating_mul(self, factor: Self) -> (product: Self)
        ensures
            product@ == if self@ * factor@ <= u16::MAX { self@ * factor@ } else { u16::MAX as int },
    {
        proof {
            use_type_invariant(&self);
            use_type_invariant(&factor);
        }
        let (a, b): (u16, u16) = (self.value, factor.value);
        assert(0 < a * b <= 0xffff * 0xffff) by (nonlinear_arith)
            requires
                0 < a <= 0xffff,
                0 < b <= 0xffff,
        ;
        let product: u32 = a as u32 * b as u32;
        if product <= u16::MAX as u32 {
            NonZeroU16 { value: product as u16 }
        } else {
            NonZeroU16 { value: u16::MAX }
        }
    }

    /// The bigger one of the two numbers.
    pub fn max(self, other: Self) -> (bigger: Self)
        ensures
            bigger@ == if self@ >= other@ { self@ } else { other@ },
    {
        if self.get() >= other.get() {
            self
        } else {
            other
        }
    }
}

/// A `usize` that is not zero.
#[derive(Clone, Copy, Debug, Hash, PartialEq, Eq, Structural)]
pub struct NonZeroUsize {
    value: usize,
}

impl NonZeroUsize {
    #[verifier::type_invariant]
    spec fn is_not_zero(self) -> bool {
        self.value != 0
    }

    pub closed spec fn view(&self) -> usize {
        self.value
    }

    pub fn new(value: usize) -> (result: Option<Self>)
        ensures
            result is Some <==> value != 0,
            result matches Some(number) ==> number@ == value,
    {
        if value == 0 {
            None
        } else {
            Some(NonZeroUsize { value })
        }
    }

    pub fn get(self) -> (value: usize)
        ensures
            value == self@,
            value != 0,
    {
        proof {
            use_type_invariant(&self);
        }
        self.value
    }
}

} // verus!
