//! The minimal arithmetic capabilities of a primitive integer type that the
//! generic accumulator is built from: its representable range, conversion
//! from small values, and one checked multiply-and-add-or-subtract step.

use vstd::prelude::*;

verus! {

/// A fixed-width primitive integer type, seen through its mathematical
/// value and its representable range.
pub trait PrimInt: Sized + Copy {
    /// The smallest representable value.
    spec fn min_spec() -> int;

    /// The largest representable value.
    spec fn max_spec() -> int;

    /// The mathematical value.
    spec fn as_int(self) -> int;

    /// Every value lies in the representable range.
    proof fn lemma_bounds(self)
        ensures
            Self::min_spec() <= self.as_int() <= Self::max_spec(),
    ;

    /// The representable range contains 0 through 36 for every width.
    proof fn lemma_type_bounds()
        ensures
            Self::min_spec() <= 0,
            36 <= Self::max_spec(),
    ;

    /// Values with equal mathematical values are equal.
    proof fn lemma_as_int_injective(self, other: Self)
        ensures
            self.as_int() == other.as_int() ==> self == other,
    ;

    /// The value 0.
    fn zero() -> (r: Self)
        ensures
            r.as_int() == 0,
    ;

    /// Conversion from a small unsigned value (a radix or a digit).
    fn from_u32_small(v: u32) -> (r: Self)
        requires
            v <= 36,
        ensures
            r.as_int() == v,
    ;

    /// Whether the type can hold negative values.
    fn is_signed() -> (b: bool)
        ensures
            b == (Self::min_spec() < 0),
    ;

    /// Whether the value is 0.
    fn is_zero(self) -> (b: bool)
        ensures
            b == (self.as_int() == 0),
    ;

    /// One accumulation step with checked arithmetic: `self * factor`, then
    /// plus or minus `digit`.  Returns nothing exactly when the product or
    /// the final value leaves the representable range.
    fn step(self, factor: Self, digit: Self, negative: bool) -> (r: Option<Self>)
        ensures
            ({
                let v = self.as_int() * factor.as_int();
                let w = if negative {
                    v - digit.as_int()
                } else {
                    v + digit.as_int()
                };
                if Self::min_spec() <= v <= Self::max_spec() && Self::min_spec() <= w
                    <= Self::max_spec() {
                    r matches Some(x) && x.as_int() == w
                } else {
                    r is None
                }
            }),
    ;
}

impl PrimInt for i8 {
    open spec fn min_spec() -> int {
        i8::MIN as int
    }

    open spec fn max_spec() -> int {
        i8::MAX as int
    }

    open spec fn as_int(self) -> int {
        self as int
    }

    proof fn lemma_bounds(self) {
    }

    proof fn lemma_type_bounds() {
    }

    proof fn lemma_as_int_injective(self, other: Self) {
    }

    fn zero() -> (r: Self) {
        0
    }

    fn from_u32_small(v: u32) -> (r: Self) {
        v as i8
    }

    fn is_signed() -> (b: bool) {
        true
    }

    fn is_zero(self) -> (b: bool) {
        self == 0
    }

    fn step(self, factor: Self, digit: Self, negative: bool) -> (r: Option<Self>) {
        match self.checked_mul(factor) {
            Some(v) => if negative {
                v.checked_sub(digit)
            } else {
                v.checked_add(digit)
            },
            None => None,
        }
    }
}

impl PrimInt for u8 {
    open spec fn min_spec() -> int {
        0
    }

    open spec fn max_spec() -> int {
        u8::MAX as int
    }

    open spec fn as_int(self) -> int {
        self as int
    }

    proof fn lemma_bounds(self) {
    }

    proof fn lemma_type_bounds() {
    }

    proof fn lemma_as_int_injective(self, other: Self) {
    }

    fn zero() -> (r: Self) {
        0
    }

    fn from_u32_small(v: u32) -> (r: Self) {
        v as u8
    }

    fn is_signed() -> (b: bool) {
        false
    }

    fn is_zero(self) -> (b: bool) {
        self == 0
    }

    fn step(self, factor: Self, digit: Self, negative: bool) -> (r: Option<Self>) {
        match self.checked_mul(factor) {
            Some(v) => if negative {
                v.checked_sub(digit)
            } else {
                v.checked_add(digit)
            },
            None => None,
        }
    }
}


impl PrimInt for i16 {
    open spec fn min_spec() -> int {
        i16::MIN as int
    }

    open spec fn max_spec() -> int {
        i16::MAX as int
    }

    open spec fn as_int(self) -> int {
        self as int
    }

    proof fn lemma_bounds(self) {
    }

    proof fn lemma_type_bounds() {
    }

    proof fn lemma_as_int_injective(self, other: Self) {
    }

    fn zero() -> (r: Self) {
        0
    }

    fn from_u32_small(v: u32) -> (r: Self) {
        v as i16
    }

    fn is_signed() -> (b: bool) {
        true
    }

    fn is_zero(self) -> (b: bool) {
        self == 0
    }

    fn step(self, factor: Self, digit: Self, negative: bool) -> (r: Option<Self>) {
        match self.checked_mul(factor) {
            Some(v) => if negative {
                v.checked_sub(digit)
            } else {
                v.checked_add(digit)
            },
            None => None,
        }
    }
}

impl PrimInt for i32 {
    open spec fn min_spec() -> int {
        i32::MIN as int
    }

    open spec fn max_spec() -> int {
        i32::MAX as int
    }

    open spec fn as_int(self) -> int {
        self as int
    }

    proof fn lemma_bounds(self) {
    }

    proof fn lemma_type_bounds() {
    }

    proof fn lemma_as_int_injective(self, other: Self) {
    }

    fn zero() -> (r: Self) {
        0
    }

    fn from_u32_small(v: u32) -> (r: Self) {
        v as i32
    }

    fn is_signed() -> (b: bool) {
        true
    }

    fn is_zero(self) -> (b: bool) {
        self == 0
    }

    fn step(self, factor: Self, digit: Self, negative: bool) -> (r: Option<Self>) {
        match self.checked_mul(factor) {
            Some(v) => if negative {
                v.checked_sub(digit)
            } else {
                v.checked_add(digit)
            },
            None => None,
        }
    }
}

impl PrimInt for i64 {
    open spec fn min_spec() -> int {
        i64::MIN as int
    }

    open spec fn max_spec() -> int {
        i64::MAX as int
    }

    open spec fn as_int(self) -> int {
        self as int
    }

    proof fn lemma_bounds(self) {
    }

    proof fn lemma_type_bounds() {
    }

    proof fn lemma_as_int_injective(self, other: Self) {
    }

    fn zero() -> (r: Self) {
        0
    }

    fn from_u32_small(v: u32) -> (r: Self) {
        v as i64
    }

    fn is_signed() -> (b: bool) {
        true
    }

    fn is_zero(self) -> (b: bool) {
        self == 0
    }

    fn step(self, factor: Self, digit: Self, negative: bool) -> (r: Option<Self>) {
        match self.checked_mul(factor) {
            Some(v) => if negative {
                v.checked_sub(digit)
            } else {
                v.checked_add(digit)
            },
            None => None,
        }
    }
}

impl PrimInt for i128 {
    open spec fn min_spec() -> int {
        i128::MIN as int
    }

    open spec fn max_spec() -> int {
        i128::MAX as int
    }

    open spec fn as_int(self) -> int {
        self as int
    }

    proof fn lemma_bounds(self) {
    }

    proof fn lemma_type_bounds() {
    }

    proof fn lemma_as_int_injective(self, other: Self) {
    }

    fn zero() -> (r: Self) {
        0
    }

    fn from_u32_small(v: u32) -> (r: Self) {
        v as i128
    }

    fn is_signed() -> (b: bool) {
        true
    }

    fn is_zero(self) -> (b: bool) {
        self == 0
    }

    fn step(self, factor: Self, digit: Self, negative: bool) -> (r: Option<Self>) {
        match self.checked_mul(factor) {
            Some(v) => if negative {
                v.checked_sub(digit)
            } else {
                v.checked_add(digit)
            },
            None => None,
        }
    }
}

impl PrimInt for isize {
    open spec fn min_spec() -> int {
        isize::MIN as int
    }

    open spec fn max_spec() -> int {
        isize::MAX as int
    }

    open spec fn as_int(self) -> int {
        self as int
    }

    proof fn lemma_bounds(self) {
    }

    proof fn lemma_type_bounds() {
    }

    proof fn lemma_as_int_injective(self, other: Self) {
    }

    fn zero() -> (r: Self) {
        0
    }

    fn from_u32_small(v: u32) -> (r: Self) {
        v as isize
    }

    fn is_signed() -> (b: bool) {
        true
    }

    fn is_zero(self) -> (b: bool) {
        self == 0
    }

    fn step(self, factor: Self, digit: Self, negative: bool) -> (r: Option<Self>) {
        match self.checked_mul(factor) {
            Some(v) => if negative {
                v.checked_sub(digit)
            } else {
                v.checked_add(digit)
            },
            None => None,
        }
    }
}

impl PrimInt for u16 {
    open spec fn min_spec() -> int {
        0
    }

    open spec fn max_spec() -> int {
        u16::MAX as int
    }

    open spec fn as_int(self) -> int {
        self as int
    }

    proof fn lemma_bounds(self) {
    }

    proof fn lemma_type_bounds() {
    }

    proof fn lemma_as_int_injective(self, other: Self) {
    }

    fn zero() -> (r: Self) {
        0
    }

    fn from_u32_small(v: u32) -> (r: Self) {
        v as u16
    }

    fn is_signed() -> (b: bool) {
        false
    }

    fn is_zero(self) -> (b: bool) {
        self == 0
    }

    fn step(self, factor: Self, digit: Self, negative: bool) -> (r: Option<Self>) {
        match self.checked_mul(factor) {
            Some(v) => if negative {
                v.checked_sub(digit)
            } else {
                v.checked_add(digit)
            },
            None => None,
        }
    }
}

impl PrimInt for u32 {
    open spec fn min_spec() -> int {
        0
    }

    open spec fn max_spec() -> int {
        u32::MAX as int
    }

    open spec fn as_int(self) -> int {
        self as int
    }

    proof fn lemma_bounds(self) {
    }

    proof fn lemma_type_bounds() {
    }

    proof fn lemma_as_int_injective(self, other: Self) {
    }

    fn zero() -> (r: Self) {
        0
    }

    fn from_u32_small(v: u32) -> (r: Self) {
        v as u32
    }

    fn is_signed() -> (b: bool) {
        false
    }

    fn is_zero(self) -> (b: bool) {
        self == 0
    }

    fn step(self, factor: Self, digit: Self, negative: bool) -> (r: Option<Self>) {
        match self.checked_mul(factor) {
            Some(v) => if negative {
                v.checked_sub(digit)
            } else {
                v.checked_add(digit)
            },
            None => None,
        }
    }
}

impl PrimInt for u64 {
    open spec fn min_spec() -> int {
        0
    }

    open spec fn max_spec() -> int {
        u64::MAX as int
    }

    open spec fn as_int(self) -> int {
        self as int
    }

    proof fn lemma_bounds(self) {
    }

    proof fn lemma_type_bounds() {
    }

    proof fn lemma_as_int_injective(self, other: Self) {
    }

    fn zero() -> (r: Self) {
        0
    }

    fn from_u32_small(v: u32) -> (r: Self) {
        v as u64
    }

    fn is_signed() -> (b: bool) {
        false
    }

    fn is_zero(self) -> (b: bool) {
        self == 0
    }

    fn step(self, factor: Self, digit: Self, negative: bool) -> (r: Option<Self>) {
        match self.checked_mul(factor) {
            Some(v) => if negative {
                v.checked_sub(digit)
            } else {
                v.checked_add(digit)
            },
            None => None,
        }
    }
}

impl PrimInt for u128 {
    open spec fn min_spec() -> int {
        0
    }

    open spec fn max_spec() -> int {
        u128::MAX as int
    }

    open spec fn as_int(self) -> int {
        self as int
    }

    proof fn lemma_bounds(self) {
    }

    proof fn lemma_type_bounds() {
    }

    proof fn lemma_as_int_injective(self, other: Self) {
    }

    fn zero() -> (r: Self) {
        0
    }

    fn from_u32_small(v: u32) -> (r: Self) {
        v as u128
    }

    fn is_signed() -> (b: bool) {
        false
    }

    fn is_zero(self) -> (b: bool) {
        self == 0
    }

    fn step(self, factor: Self, digit: Self, negative: bool) -> (r: Option<Self>) {
        match self.checked_mul(factor) {
            Some(v) => if negative {
                v.checked_sub(digit)
            } else {
                v.checked_add(digit)
            },
            None => None,
        }
    }
}

impl PrimInt for usize {
    open spec fn min_spec() -> int {
        0
    }

    open spec fn max_spec() -> int {
        usize::MAX as int
    }

    open spec fn as_int(self) -> int {
        self as int
    }

    proof fn lemma_bounds(self) {
    }

    proof fn lemma_type_bounds() {
    }

    proof fn lemma_as_int_injective(self, other: Self) {
    }

    fn zero() -> (r: Self) {
        0
    }

    fn from_u32_small(v: u32) -> (r: Self) {
        v as usize
    }

    fn is_signed() -> (b: bool) {
        false
    }

    fn is_zero(self) -> (b: bool) {
        self == 0
    }

    fn step(self, factor: Self, digit: Self, negative: bool) -> (r: Option<Self>) {
        match self.checked_mul(factor) {
            Some(v) => if negative {
                v.checked_sub(digit)
            } else {
                v.checked_add(digit)
            },
            None => None,
        }
    }
}

} // verus!
