//! Numeric accumulators: the abstraction the scanner drives, its
//! implementation for every primitive width, and the non-zero wrapper.

use vstd::prelude::*;
use crate::base::Base;
use crate::errors::IntAccumulatorError;
use crate::prim::PrimInt;

verus! {

/// The contract between the scanner and the arithmetic for one target type:
/// an accumulator is started for a radix and a sign, consumes digits one at
/// a time, and is consumed once to yield the final value or an error.
pub trait Accumulator<Int>: Sized {
    type Err;

    /// Well-formedness, established by the start operations and preserved
    /// by `push_digit`.
    spec fn inv(self) -> bool;

    /// The radix in use.
    spec fn base_value(self) -> Base;

    /// The mathematical value accumulated so far.
    spec fn value(self) -> int;

    /// Whether digits are folded in by subtraction rather than addition.
    spec fn negative(self) -> bool;

    /// Whether at least one digit has been consumed.
    spec fn any_digits(self) -> bool;

    /// The smallest value the accumulator may reach.
    spec fn lo() -> int;

    /// The largest value the accumulator may reach.
    spec fn hi() -> int;

    /// Whether `start_negative` succeeds for this type.
    spec fn can_negative() -> bool;

    /// Whether `start_nonpositive` succeeds for this type.
    spec fn can_nonpositive() -> bool;

    /// Whether `finish` accepts an accumulated value of exactly zero.
    spec fn zero_allowed() -> bool;

    /// The mathematical value of a finished result.
    spec fn int_value(i: Int) -> int;

    /// The error for an accumulator that never saw a digit.
    spec fn err_no_digits() -> Self::Err;

    /// The error for a value outside the representable range.
    spec fn err_out_of_range() -> Self::Err;

    /// The error for a digit at least as large as the radix.
    spec fn err_digit_too_large(base: Base, digit: u32) -> Self::Err;

    /// The error for negative accumulation into a type that cannot hold
    /// negative values.
    spec fn err_cannot_be_negative() -> Self::Err;

    /// Results with equal mathematical values are equal.
    proof fn lemma_int_value_injective(a: Int, b: Int)
        ensures
            Self::int_value(a) == Self::int_value(b) ==> a == b,
    ;

    /// A fresh accumulator that folds digits in by addition.  Succeeds for
    /// every type.
    fn start_positive(base: Base) -> (r: Result<Self, Self::Err>)
        requires
            base.wf(),
        ensures
            r matches Ok(a) && a.inv() && a.base_value() == base && a.value() == 0
                && !a.negative() && !a.any_digits(),
    ;

    /// A fresh accumulator that folds digits in by subtraction from zero.
    /// Fails exactly for types that cannot hold negative values.
    fn start_negative(base: Base) -> (r: Result<Self, Self::Err>)
        requires
            base.wf(),
        ensures
            Self::can_negative() ==> (r matches Ok(a) && a.inv() && a.base_value() == base
                && a.value() == 0 && a.negative() && !a.any_digits()),
            !Self::can_negative() ==> r == Err::<Self, Self::Err>(Self::err_cannot_be_negative()),
    ;

    /// A fresh accumulator for contexts where a leading `-0` is acceptable:
    /// like `start_negative`, except that types that can hold zero but not
    /// negative values still accept it and accumulate by subtraction from
    /// zero (so that every non-zero digit immediately underflows).
    fn start_nonpositive(base: Base) -> (r: Result<Self, Self::Err>)
        requires
            base.wf(),
        ensures
            Self::can_nonpositive() ==> (r matches Ok(a) && a.inv() && a.base_value() == base
                && a.value() == 0 && a.negative() && !a.any_digits()),
            !Self::can_nonpositive() ==> r == Err::<Self, Self::Err>(
                Self::err_cannot_be_negative(),
            ),
    ;

    /// Folds one digit into the running value: multiply by the radix, then
    /// add or subtract the digit.  Rejects digits at least as large as the
    /// radix, and values that leave the representable range.  On failure
    /// the accumulator is unchanged.
    fn push_digit(&mut self, digit: u32) -> (r: Result<(), Self::Err>)
        requires
            old(self).inv(),
        ensures
            ({
                let b = old(self).base_value().spec_get() as int;
                let proposed = if old(self).negative() {
                    old(self).value() * b - digit
                } else {
                    old(self).value() * b + digit
                };
                if digit >= b {
                    &&& r == Err::<(), Self::Err>(Self::err_digit_too_large(
                        old(self).base_value(),
                        digit,
                    ))
                    &&& *final(self) == *old(self)
                } else if proposed < Self::lo() || proposed > Self::hi() {
                    &&& r == Err::<(), Self::Err>(Self::err_out_of_range())
                    &&& *final(self) == *old(self)
                } else {
                    &&& r is Ok
                    &&& final(self).inv()
                    &&& final(self).base_value() == old(self).base_value()
                    &&& final(self).negative() == old(self).negative()
                    &&& final(self).value() == proposed
                    &&& final(self).any_digits()
                }
            }),
    ;

    /// Consumes the accumulator and yields the final value: an error if no
    /// digit was ever pushed, or if the value is zero and the type excludes
    /// zero.
    fn finish(self) -> (r: Result<Int, Self::Err>)
        requires
            self.inv(),
        ensures
            !self.any_digits() ==> r == Err::<Int, Self::Err>(Self::err_no_digits()),
            self.any_digits() && self.value() == 0 && !Self::zero_allowed() ==> r == Err::<
                Int,
                Self::Err,
            >(Self::err_out_of_range()),
            self.any_digits() && (self.value() != 0 || Self::zero_allowed()) ==> (r matches Ok(v)
                && Self::int_value(v) == self.value()),
    ;
}

/// The accumulator for a primitive integer type: the radix, the radix cast
/// into the target type, the running value, the accumulation direction, and
/// whether any digit has been consumed.
#[derive(Copy, Clone, Debug, Eq, PartialEq)]
pub struct IntAccumulator<Int> {
    base: Base,
    cast_base: Int,
    value: Int,
    negative: bool,
    any_digits: bool,
}

impl<Int: PrimInt> Accumulator<Int> for IntAccumulator<Int> {
    type Err = IntAccumulatorError;

    closed spec fn inv(self) -> bool {
        &&& 2 <= self.base.spec_get() <= 36
        &&& self.cast_base.as_int() == self.base.spec_get()
        &&& self.negative ==> self.value.as_int() <= 0
        &&& !self.negative ==> self.value.as_int() >= 0
    }

    closed spec fn base_value(self) -> Base {
        self.base
    }

    closed spec fn value(self) -> int {
        self.value.as_int()
    }

    closed spec fn negative(self) -> bool {
        self.negative
    }

    closed spec fn any_digits(self) -> bool {
        self.any_digits
    }

    open spec fn lo() -> int {
        Int::min_spec()
    }

    open spec fn hi() -> int {
        Int::max_spec()
    }

    open spec fn can_negative() -> bool {
        Int::min_spec() < 0
    }

    open spec fn can_nonpositive() -> bool {
        true
    }

    open spec fn zero_allowed() -> bool {
        true
    }

    open spec fn int_value(i: Int) -> int {
        i.as_int()
    }

    open spec fn err_no_digits() -> IntAccumulatorError {
        IntAccumulatorError::NoDigits
    }

    open spec fn err_out_of_range() -> IntAccumulatorError {
        IntAccumulatorError::OutOfRange
    }

    open spec fn err_digit_too_large(base: Base, digit: u32) -> IntAccumulatorError {
        IntAccumulatorError::DigitTooLarge { base, digit }
    }

    open spec fn err_cannot_be_negative() -> IntAccumulatorError {
        IntAccumulatorError::CannotBeNegative
    }

    proof fn lemma_int_value_injective(a: Int, b: Int) {
        a.lemma_as_int_injective(b);
    }

    fn start_positive(base: Base) -> (r: Result<Self, IntAccumulatorError>) {
        Ok(
            IntAccumulator {
                base,
                cast_base: Int::from_u32_small(base.get()),
                value: Int::zero(),
                negative: false,
                any_digits: false,
            },
        )
    }

    fn start_negative(base: Base) -> (r: Result<Self, IntAccumulatorError>) {
        if Int::is_signed() {
            Ok(
                IntAccumulator {
                    base,
                    cast_base: Int::from_u32_small(base.get()),
                    value: Int::zero(),
                    negative: true,
                    any_digits: false,
                },
            )
        } else {
            Err(IntAccumulatorError::CannotBeNegative)
        }
    }

    fn start_nonpositive(base: Base) -> (r: Result<Self, IntAccumulatorError>) {
        Ok(
            IntAccumulator {
                base,
                cast_base: Int::from_u32_small(base.get()),
                value: Int::zero(),
                negative: true,
                any_digits: false,
            },
        )
    }

    fn push_digit(&mut self, digit: u32) -> (r: Result<(), IntAccumulatorError>) {
        if digit >= self.base.get() {
            return Err(IntAccumulatorError::DigitTooLarge { base: self.base, digit });
        }
        let d = Int::from_u32_small(digit);
        proof {
            Int::lemma_type_bounds();
            let v = self.value.as_int();
            let b = self.cast_base.as_int();
            if self.negative {
                assert(v * b <= 0) by (nonlinear_arith)
                    requires
                        v <= 0,
                        b >= 2,
                ;
            } else {
                assert(v * b >= 0) by (nonlinear_arith)
                    requires
                        v >= 0,
                        b >= 2,
                ;
            }
        }
        match self.value.step(self.cast_base, d, self.negative) {
            Some(v) => {
                self.value = v;
                self.any_digits = true;
                Ok(())
            },
            None => Err(IntAccumulatorError::OutOfRange),
        }
    }

    fn finish(self) -> (r: Result<Int, IntAccumulatorError>) {
        if self.any_digits {
            Ok(self.value)
        } else {
            Err(IntAccumulatorError::NoDigits)
        }
    }
}

/// A value of a primitive integer type that is known not to be zero.
#[derive(Copy, Clone, Debug, Eq, PartialEq)]
pub struct NonZero<Int> {
    value: Int,
}

impl<Int: PrimInt> NonZero<Int> {
    /// The contained value.
    pub closed spec fn spec_get(self) -> Int {
        self.value
    }

    /// The contained value is never zero.
    pub open spec fn wf(self) -> bool {
        self.spec_get().as_int() != 0
    }

    /// Wraps a value, rejecting zero.
    pub fn new(value: Int) -> (r: Option<NonZero<Int>>)
        ensures
            value.as_int() != 0 ==> (r matches Some(nz) && nz.spec_get() == value),
            value.as_int() == 0 ==> r is None,
            r matches Some(nz) ==> nz.wf(),
    {
        if value.is_zero() {
            None
        } else {
            Some(NonZero { value })
        }
    }

    /// The contained value.
    pub fn get(self) -> (r: Int)
        ensures
            r == self.spec_get(),
    {
        self.value
    }
}

/// An accumulator for a non-zero numeric type: wraps the accumulator of the
/// corresponding plain type, forwarding everything except `finish`, which
/// additionally rejects an accumulated value of exactly zero.
#[derive(Copy, Clone, Debug, Eq, PartialEq)]
pub struct NonZeroAccumulator<A>(A);

impl<Int: PrimInt> Accumulator<NonZero<Int>> for NonZeroAccumulator<IntAccumulator<Int>> {
    type Err = IntAccumulatorError;

    closed spec fn inv(self) -> bool {
        self.0.inv()
    }

    closed spec fn base_value(self) -> Base {
        self.0.base_value()
    }

    closed spec fn value(self) -> int {
        self.0.value()
    }

    closed spec fn negative(self) -> bool {
        self.0.negative()
    }

    closed spec fn any_digits(self) -> bool {
        self.0.any_digits()
    }

    open spec fn lo() -> int {
        Int::min_spec()
    }

    open spec fn hi() -> int {
        Int::max_spec()
    }

    open spec fn can_negative() -> bool {
        Int::min_spec() < 0
    }

    // `start_nonpositive` is not overridden for non-zero types: it forwards
    // to `start_negative`, so non-zero unsigned types reject it.
    open spec fn can_nonpositive() -> bool {
        Int::min_spec() < 0
    }

    open spec fn zero_allowed() -> bool {
        false
    }

    open spec fn int_value(i: NonZero<Int>) -> int {
        i.spec_get().as_int()
    }

    open spec fn err_no_digits() -> IntAccumulatorError {
        IntAccumulatorError::NoDigits
    }

    open spec fn err_out_of_range() -> IntAccumulatorError {
        IntAccumulatorError::OutOfRange
    }

    open spec fn err_digit_too_large(base: Base, digit: u32) -> IntAccumulatorError {
        IntAccumulatorError::DigitTooLarge { base, digit }
    }

    open spec fn err_cannot_be_negative() -> IntAccumulatorError {
        IntAccumulatorError::CannotBeNegative
    }

    proof fn lemma_int_value_injective(a: NonZero<Int>, b: NonZero<Int>) {
        a.spec_get().lemma_as_int_injective(b.spec_get());
    }

    fn start_positive(base: Base) -> (r: Result<Self, IntAccumulatorError>) {
        match IntAccumulator::<Int>::start_positive(base) {
            Ok(a) => Ok(NonZeroAccumulator(a)),
            Err(e) => Err(e),
        }
    }

    fn start_negative(base: Base) -> (r: Result<Self, IntAccumulatorError>) {
        match IntAccumulator::<Int>::start_negative(base) {
            Ok(a) => Ok(NonZeroAccumulator(a)),
            Err(e) => Err(e),
        }
    }

    fn start_nonpositive(base: Base) -> (r: Result<Self, IntAccumulatorError>) {
        match IntAccumulator::<Int>::start_negative(base) {
            Ok(a) => Ok(NonZeroAccumulator(a)),
            Err(e) => Err(e),
        }
    }

    fn push_digit(&mut self, digit: u32) -> (r: Result<(), IntAccumulatorError>) {
        self.0.push_digit(digit)
    }

    fn finish(self) -> (r: Result<NonZero<Int>, IntAccumulatorError>) {
        match self.0.finish() {
            Ok(n) => match NonZero::new(n) {
                Some(nz) => Ok(nz),
                None => Err(IntAccumulatorError::OutOfRange),
            },
            Err(e) => Err(e),
        }
    }
}

} // verus!
