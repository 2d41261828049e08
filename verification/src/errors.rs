//! The error taxonomy of the parser and the accumulators.

use vstd::prelude::*;
use vstd::string::StringExecFns;
use crate::base::Base;
use crate::digits::base_repr;
use crate::digits::push_decimal;

verus! {

/// Error type of the numeric accumulators.
#[derive(Copy, Clone, Debug, Eq, Hash, PartialEq)]
pub enum IntAccumulatorError {
    /// No digit was ever pushed into the accumulator.
    NoDigits,
    /// The accumulated value left the representable range of the numeric
    /// type (overflow or underflow), or a non-zero type accumulated exactly
    /// zero.
    OutOfRange,
    /// A digit value at least as large as the radix was pushed.
    DigitTooLarge { base: Base, digit: u32 },
    /// Negative accumulation was requested for a type that cannot hold
    /// negative values.
    CannotBeNegative,
}

impl IntAccumulatorError {
    /// The characters of the human-readable rendering of the error.
    pub open spec fn message_spec(self) -> Seq<char> {
        match self {
            IntAccumulatorError::NoDigits => "no digits provided to accumulator"@,
            IntAccumulatorError::OutOfRange => "accumulated value is out of range for numeric type"@,
            IntAccumulatorError::DigitTooLarge { base, digit } => "accumulator received digit "@
                + base_repr(digit as nat, 10) + " out of range for base "@ + base_repr(
                base.spec_get() as nat,
                10,
            ),
            IntAccumulatorError::CannotBeNegative => "cannot start negative value for unsigned numeric type"@,
        }
    }

    /// A human-readable rendering of the error, one sentence combining the
    /// discriminant and its associated data.
    pub fn message(&self) -> (r: String)
        ensures
            r@ == self.message_spec(),
    {
        match self {
            IntAccumulatorError::NoDigits => String::from_str("no digits provided to accumulator"),
            IntAccumulatorError::OutOfRange => String::from_str(
                "accumulated value is out of range for numeric type",
            ),
            IntAccumulatorError::DigitTooLarge { base, digit } => {
                let mut s = String::from_str("accumulator received digit ");
                push_decimal(&mut s, *digit as u128);
                s.append(" out of range for base ");
                push_decimal(&mut s, base.get() as u128);
                proof {
                    assert(s@ =~= self.message_spec());
                }
                s
            },
            IntAccumulatorError::CannotBeNegative => String::from_str(
                "cannot start negative value for unsigned numeric type",
            ),
        }
    }
}

/// Error type of the top-level parse routine: either a lexical failure with
/// the offending character and its position, or an accumulator failure
/// wrapped with the position at which it was detected.
#[derive(Copy, Clone, Debug, Eq, Hash, PartialEq)]
pub enum StrToIntError<E> {
    /// The input contained no digits after the optional sign and base
    /// prefix.
    NoDigits,
    /// The input contained a character that is not a valid digit for the
    /// active radix; `c` is the character and `position` its offset in the
    /// input.
    InvalidCharacter { c: char, position: usize },
    /// The accumulator failed at the given offset in the input.
    Accumulator { source: E, position: usize },
}

/// The error type of parsing into a primitive integer type or a non-zero
/// variant of one.
pub type StrToPrimIntError = StrToIntError<IntAccumulatorError>;

impl StrToIntError<IntAccumulatorError> {
    /// The characters of the human-readable rendering of the error.
    pub open spec fn message_spec(self) -> Seq<char> {
        match self {
            StrToIntError::NoDigits => "no digits in input"@,
            StrToIntError::InvalidCharacter { c, position } => "invalid character '"@ + seq![c]
                + "' at position "@ + base_repr(position as nat, 10),
            StrToIntError::Accumulator { source, position } => "numeric error at position "@
                + base_repr(position as nat, 10) + ": "@ + source.message_spec(),
        }
    }

    /// A human-readable rendering of the error, one sentence combining the
    /// discriminant and its associated data.
    pub fn message(&self) -> (r: String)
        ensures
            r@ == self.message_spec(),
    {
        match self {
            StrToIntError::NoDigits => String::from_str("no digits in input"),
            StrToIntError::InvalidCharacter { c, position } => {
                let mut s = String::from_str("invalid character '");
                s.push(*c);
                s.append("' at position ");
                push_decimal(&mut s, *position as u128);
                proof {
                    assert(s@ =~= self.message_spec());
                }
                s
            },
            StrToIntError::Accumulator { source, position } => {
                let mut s = String::from_str("numeric error at position ");
                push_decimal(&mut s, *position as u128);
                s.append(": ");
                let tail = source.message();
                s.append(tail.as_str());
                proof {
                    assert(s@ =~= self.message_spec());
                }
                s
            },
        }
    }
}

} // verus!
