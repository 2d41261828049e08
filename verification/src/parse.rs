//! The lexical scanner: the specification of what an integer literal
//! denotes, and the verified parse routine that drives an accumulator over
//! the input.

use vstd::prelude::*;
use vstd::string::StrSliceExecFns;
use crate::accum::Accumulator;
use crate::accum::IntAccumulator;
use crate::accum::NonZero;
use crate::accum::NonZeroAccumulator;
use crate::base::spec_parse_digit;
use crate::base::Base;
use crate::errors::StrToIntError;
use crate::prim::PrimInt;

verus! {

/// Whether the input starts with an explicit sign character.
pub open spec fn has_sign(s: Seq<char>) -> bool {
    s.len() > 0 && (s[0] == '+' || s[0] == '-')
}

/// Whether the input starts with a minus sign.
pub open spec fn is_negative_input(s: Seq<char>) -> bool {
    s.len() > 0 && s[0] == '-'
}

/// The number of characters taken by the optional sign.
pub open spec fn sign_len(s: Seq<char>) -> int {
    if has_sign(s) {
        1
    } else {
        0
    }
}

/// The radix selected by a lowercase base prefix at position `i` of the
/// input: 16 for `0x`, 8 for `0o`, 2 for `0b`, and otherwise 10 with no
/// prefix consumed.  Uppercase forms select no prefix.
pub open spec fn prefix_base(s: Seq<char>, i: int) -> int {
    if i + 2 <= s.len() && s[i] == '0' && s[i + 1] == 'x' {
        16
    } else if i + 2 <= s.len() && s[i] == '0' && s[i + 1] == 'o' {
        8
    } else if i + 2 <= s.len() && s[i] == '0' && s[i + 1] == 'b' {
        2
    } else {
        10
    }
}

/// The number of characters taken by the base prefix at position `i`.
pub open spec fn prefix_len(s: Seq<char>, i: int) -> int {
    if prefix_base(s, i) == 10 {
        0
    } else {
        2
    }
}

/// One pass over the digit section of the input, from position `i` to the
/// end, folding digits into `value` exactly as an accumulator with range
/// `lo ..= hi` does.  `any` records whether a digit has been seen;
/// underscores are skipped, except that an underscore before the first
/// digit of an unprefixed decimal literal is an invalid character.  Yields
/// the final value and digit flag, or the first error: an invalid
/// character at its position, or `e_oor` wrapped with the position where
/// the value left the range.
pub open spec fn scan_digits<E>(
    s: Seq<char>,
    i: int,
    base: int,
    negative: bool,
    lo: int,
    hi: int,
    e_oor: E,
    value: int,
    any: bool,
) -> Result<(int, bool), StrToIntError<E>>
    decreases s.len() - i,
{
    if i < 0 || i >= s.len() {
        Ok((value, any))
    } else if s[i] == '_' {
        if !any && base == 10 {
            Err(StrToIntError::InvalidCharacter { c: '_', position: i as usize })
        } else {
            scan_digits(s, i + 1, base, negative, lo, hi, e_oor, value, any)
        }
    } else {
        match spec_parse_digit(s[i], base as u32) {
            Some(d) => {
                let proposed = if negative {
                    value * base - d
                } else {
                    value * base + d
                };
                if proposed < lo || proposed > hi {
                    Err(StrToIntError::Accumulator { source: e_oor, position: i as usize })
                } else {
                    scan_digits(s, i + 1, base, negative, lo, hi, e_oor, proposed, true)
                }
            },
            None => Err(StrToIntError::InvalidCharacter { c: s[i], position: i as usize }),
        }
    }
}

/// What parsing an integer literal denotes, for a target type with range
/// `lo ..= hi`: the mathematical value of the literal, or the first error.
/// `can_neg` says whether the type accepts a leading minus sign (a type
/// that does not rejects it as an invalid character at position 0);
/// `zero_ok` says whether a literal denoting zero is accepted (a non-zero
/// type rejects it with `e_oor` at the position of the last character).
pub open spec fn parse_spec<E>(
    s: Seq<char>,
    lo: int,
    hi: int,
    can_neg: bool,
    zero_ok: bool,
    e_oor: E,
) -> Result<int, StrToIntError<E>> {
    let neg = is_negative_input(s);
    if neg && !can_neg {
        Err(StrToIntError::InvalidCharacter { c: '-', position: 0 })
    } else {
        let i0 = sign_len(s);
        let base = prefix_base(s, i0);
        let i1 = i0 + prefix_len(s, i0);
        match scan_digits(s, i1, base, neg, lo, hi, e_oor, 0, false) {
            Ok((value, any)) => {
                if !any {
                    Err(StrToIntError::NoDigits)
                } else if value == 0 && !zero_ok {
                    Err(
                        StrToIntError::Accumulator {
                            source: e_oor,
                            position: (s.len() - 1) as usize,
                        },
                    )
                } else {
                    Ok(value)
                }
            },
            Err(e) => Err(e),
        }
    }
}

/// How the result of a parse into `Int` through the accumulator `A`
/// relates to the input: an `Ok` carries the value that [`parse_spec`]
/// denotes, and an `Err` is exactly the error that [`parse_spec`] denotes.
pub open spec fn parse_post<Int, A: Accumulator<Int>>(
    s: Seq<char>,
    r: Result<Int, StrToIntError<A::Err>>,
) -> bool {
    let m = parse_spec(s, A::lo(), A::hi(), A::can_negative(), A::zero_allowed(), A::err_out_of_range());
    match r {
        Ok(v) => m == Ok::<int, StrToIntError<A::Err>>(A::int_value(v)),
        Err(e) => m == Err::<int, StrToIntError<A::Err>>(e),
    }
}

/// One pass over a sequence of raw digit values from position `j` to the
/// end, folding them into `value` exactly as an accumulator for `Int`
/// does: the first digit at least as large as the radix, or the first
/// value to leave the range, stops the fold with the matching error.
pub open spec fn fold_digits<Int, A: Accumulator<Int>>(
    digits: Seq<u32>,
    j: int,
    base: Base,
    negative: bool,
    value: int,
    any: bool,
) -> Result<(int, bool), A::Err>
    decreases digits.len() - j,
{
    if j < 0 || j >= digits.len() {
        Ok((value, any))
    } else if digits[j] >= base.spec_get() {
        Err(A::err_digit_too_large(base, digits[j]))
    } else {
        let b = base.spec_get() as int;
        let proposed = if negative {
            value * b - digits[j]
        } else {
            value * b + digits[j]
        };
        if proposed < A::lo() || proposed > A::hi() {
            Err(A::err_out_of_range())
        } else {
            fold_digits::<Int, A>(digits, j + 1, base, negative, proposed, true)
        }
    }
}

/// How the result of folding a whole sequence of raw digit values into
/// `Int` through the accumulator `A` relates to those digits: the folded
/// value when every digit fits and the value stays in range and is
/// acceptable at the finish, and otherwise the first error.
pub open spec fn from_digits_post<Int, A: Accumulator<Int>>(
    digits: Seq<u32>,
    base: Base,
    negative: bool,
    r: Result<Int, A::Err>,
) -> bool {
    if negative && !A::can_negative() {
        r == Err::<Int, A::Err>(A::err_cannot_be_negative())
    } else {
        match fold_digits::<Int, A>(digits, 0, base, negative, 0, false) {
            Ok((value, any)) => {
                if !any {
                    r == Err::<Int, A::Err>(A::err_no_digits())
                } else if value == 0 && !A::zero_allowed() {
                    r == Err::<Int, A::Err>(A::err_out_of_range())
                } else {
                    r matches Ok(v) && A::int_value(v) == value
                }
            },
            Err(e) => r == Err::<Int, A::Err>(e),
        }
    }
}

/// Trait used to implement the [`strtoint()`] function.
///
/// Call [`strtoint()`] instead of using this trait directly.  You only
/// ever need to import this trait if you are implementing support for a
/// custom numeric type.
pub trait StrToInt: Sized {
    type Accumulator: Accumulator<Self>;

    /// Folds raw digit values (each below the radix) into a value of the
    /// type, accumulating positively.
    #[verifier::loop_isolation(false)]
    fn positive_from_digits(base: Base, digits: &Vec<u32>) -> (r: Result<
        Self,
        <Self::Accumulator as Accumulator<Self>>::Err,
    >)
        requires
            base.wf(),
        ensures
            from_digits_post::<Self, Self::Accumulator>(digits@, base, false, r),
    {
        let mut acc = match Self::Accumulator::start_positive(base) {
            Ok(a) => a,
            Err(e) => {
                return Err(e);
            },
        };
        let mut any = false;
        let mut k: usize = 0;
        while k < digits.len()
            invariant
                k <= digits@.len(),
                acc.inv(),
                acc.base_value() == base,
                !acc.negative(),
                acc.any_digits() == any,
                fold_digits::<Self, Self::Accumulator>(digits@, k as int, base, false, acc.value(), any)
                    == fold_digits::<Self, Self::Accumulator>(digits@, 0, base, false, 0, false),
            decreases digits@.len() - k,
        {
            let d = digits[k];
            match acc.push_digit(d) {
                Ok(_) => {
                    any = true;
                },
                Err(e) => {
                    return Err(e);
                },
            }
            k = k + 1;
        }
        acc.finish()
    }

    /// Folds raw digit values (each below the radix) into a value of the
    /// type, accumulating by subtraction from zero; fails for types that
    /// cannot hold negative values.
    #[verifier::loop_isolation(false)]
    fn negative_from_digits(base: Base, digits: &Vec<u32>) -> (r: Result<
        Self,
        <Self::Accumulator as Accumulator<Self>>::Err,
    >)
        requires
            base.wf(),
        ensures
            from_digits_post::<Self, Self::Accumulator>(digits@, base, true, r),
    {
        let mut acc = match Self::Accumulator::start_negative(base) {
            Ok(a) => a,
            Err(e) => {
                return Err(e);
            },
        };
        let mut any = false;
        let mut k: usize = 0;
        while k < digits.len()
            invariant
                k <= digits@.len(),
                acc.inv(),
                acc.base_value() == base,
                acc.negative(),
                acc.any_digits() == any,
                fold_digits::<Self, Self::Accumulator>(digits@, k as int, base, true, acc.value(), any)
                    == fold_digits::<Self, Self::Accumulator>(digits@, 0, base, true, 0, false),
            decreases digits@.len() - k,
        {
            let d = digits[k];
            match acc.push_digit(d) {
                Ok(_) => {
                    any = true;
                },
                Err(e) => {
                    return Err(e);
                },
            }
            k = k + 1;
        }
        acc.finish()
    }

    /// Parses a string as the type in question.
    ///
    /// A valid input is an optional sign (`+` or `-`, the latter rejected
    /// at position 0 for types that cannot hold negative values), then an
    /// optional lowercase base prefix (`0x`, `0o`, or `0b`; otherwise
    /// decimal), then one or more digits of the radix, optionally
    /// interspersed with underscores; an underscore may not be the first
    /// character of an unprefixed decimal literal.
    #[verifier::loop_isolation(false)]
    fn strtoint(s: &str) -> (r: Result<
        Self,
        StrToIntError<<Self::Accumulator as Accumulator<Self>>::Err>,
    >)
        ensures
            parse_post::<Self, Self::Accumulator>(s@, r),
    {
        let ghost lo = <Self::Accumulator as Accumulator<Self>>::lo();
        let ghost hi = <Self::Accumulator as Accumulator<Self>>::hi();
        let ghost e_oor = <Self::Accumulator as Accumulator<Self>>::err_out_of_range();
        let n = s.unicode_len();
        let mut i: usize = 0;
        let mut negative = false;
        if n > 0 {
            let c0 = s.get_char(0);
            if c0 == '+' {
                i = 1;
            } else if c0 == '-' {
                negative = true;
                i = 1;
            }
        }
        assert(i == sign_len(s@));
        assert(negative == is_negative_input(s@));
        let mut base = Base::decimal();
        let ghost spec_base = prefix_base(s@, i as int);
        if i + 2 <= n {
            let c = s.get_char(i);
            if c == '0' {
                let c1 = s.get_char(i + 1);
                if c1 == 'x' {
                    base = Base::hexadecimal();
                    i = i + 2;
                } else if c1 == 'o' {
                    base = Base::octal();
                    i = i + 2;
                } else if c1 == 'b' {
                    base = Base::binary();
                    i = i + 2;
                }
            }
        }
        assert(base.spec_get() == spec_base);
        assert(i == sign_len(s@) + prefix_len(s@, sign_len(s@)));
        let acc_start = if negative {
            Self::Accumulator::start_negative(base)
        } else {
            Self::Accumulator::start_positive(base)
        };
        let mut acc = match acc_start {
            Ok(a) => a,
            Err(_) => {
                // the accumulator vetoed negative accumulation: the
                // leading minus sign is not acceptable for this type
                return Err(StrToIntError::InvalidCharacter { c: '-', position: 0 });
            },
        };
        let mut digit_seen = false;
        let mut j = i;
        while j < n
            invariant
                n == s@.len(),
                i <= j <= n,
                acc.inv(),
                acc.base_value() == base,
                acc.negative() == negative,
                acc.any_digits() == digit_seen,
                scan_digits(s@, j as int, spec_base, negative, lo, hi, e_oor, acc.value(), digit_seen)
                    == scan_digits(s@, i as int, spec_base, negative, lo, hi, e_oor, 0, false),
            decreases n - j,
        {
            let c = s.get_char(j);
            proof {
                assert(spec_base as u32 == base.spec_get());
            }
            if c == '_' {
                if !digit_seen && base.get() == 10 {
                    assert(scan_digits(s@, j as int, spec_base, negative, lo, hi, e_oor, acc.value(), digit_seen)
                        == Err::<(int, bool), StrToIntError<
                        <Self::Accumulator as Accumulator<Self>>::Err,
                    >>(StrToIntError::InvalidCharacter { c: '_', position: j }));
                    return Err(StrToIntError::InvalidCharacter { c, position: j });
                }
            } else {
                match base.parse_digit(c) {
                    Some(d) => {
                        let ghost value_before = acc.value();
                        let ghost seen_before = digit_seen;
                        match acc.push_digit(d) {
                            Ok(_) => {
                                digit_seen = true;
                                assert(scan_digits(s@, j as int, spec_base, negative, lo, hi, e_oor, value_before, seen_before)
                                    == scan_digits(s@, j + 1, spec_base, negative, lo, hi, e_oor, acc.value(), true));
                            },
                            Err(e) => {
                                assert(scan_digits(s@, j as int, spec_base, negative, lo, hi, e_oor, acc.value(), digit_seen)
                                    == Err::<(int, bool), StrToIntError<
                                    <Self::Accumulator as Accumulator<Self>>::Err,
                                >>(StrToIntError::Accumulator { source: e_oor, position: j }));
                                return Err(StrToIntError::Accumulator { source: e, position: j });
                            },
                        }
                    },
                    None => {
                        assert(scan_digits(s@, j as int, spec_base, negative, lo, hi, e_oor, acc.value(), digit_seen)
                            == Err::<(int, bool), StrToIntError<
                            <Self::Accumulator as Accumulator<Self>>::Err,
                        >>(StrToIntError::InvalidCharacter { c: s@[j as int], position: j }));
                        return Err(StrToIntError::InvalidCharacter { c, position: j });
                    },
                }
            }
            j = j + 1;
        }
        if !digit_seen {
            return Err(StrToIntError::NoDigits);
        }
        match acc.finish() {
            Ok(v) => Ok(v),
            Err(e) => Err(StrToIntError::Accumulator { source: e, position: n - 1 }),
        }
    }
}

/// Parses an integer literal from a string.
///
/// A valid input is an optional sign (`+` or `-`, the latter rejected for
/// unsigned types), then an optional lowercase base prefix (`0x` for
/// hexadecimal, `0o` for octal, `0b` for binary; otherwise decimal), then
/// one or more digits of that radix, optionally interspersed with
/// underscores.  Leading and trailing whitespace is rejected, as is an
/// underscore before the first digit of an unprefixed decimal literal.
/// The result is the denoted value when it lies in the range of the
/// target type, and otherwise the first error, with the position where it
/// was detected.
pub fn strtoint<T: StrToInt>(s: &str) -> (r: Result<
    T,
    StrToIntError<<<T as StrToInt>::Accumulator as Accumulator<T>>::Err>,
>)
    ensures
        parse_post::<T, T::Accumulator>(s@, r),
{
    T::strtoint(s)
}

impl StrToInt for i8 {
    type Accumulator = IntAccumulator<i8>;
}

impl StrToInt for i16 {
    type Accumulator = IntAccumulator<i16>;
}

impl StrToInt for i32 {
    type Accumulator = IntAccumulator<i32>;
}

impl StrToInt for i64 {
    type Accumulator = IntAccumulator<i64>;
}

impl StrToInt for i128 {
    type Accumulator = IntAccumulator<i128>;
}

impl StrToInt for isize {
    type Accumulator = IntAccumulator<isize>;
}

impl StrToInt for u8 {
    type Accumulator = IntAccumulator<u8>;
}

impl StrToInt for u16 {
    type Accumulator = IntAccumulator<u16>;
}

impl StrToInt for u32 {
    type Accumulator = IntAccumulator<u32>;
}

impl StrToInt for u64 {
    type Accumulator = IntAccumulator<u64>;
}

impl StrToInt for u128 {
    type Accumulator = IntAccumulator<u128>;
}

impl StrToInt for usize {
    type Accumulator = IntAccumulator<usize>;
}

impl<Int: PrimInt> StrToInt for NonZero<Int> {
    type Accumulator = NonZeroAccumulator<IntAccumulator<Int>>;
}

} // verus!
