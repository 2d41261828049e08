use strtoint::{
    Accumulator, Base, IntAccumulator, IntAccumulatorError, NonZero, NonZeroAccumulator, StrToInt,
};

#[test]
fn test_positive_from_digits() {
    let base = Base::decimal();
    let digits: Vec<u32> = vec![1, 2, 3];
    assert_eq!(i32::positive_from_digits(base, &digits), Ok(123));
    let hex = Base::hexadecimal();
    let digits: Vec<u32> = vec![15, 15];
    assert_eq!(u8::positive_from_digits(hex, &digits), Ok(255));
}

#[test]
fn test_positive_from_digits_empty() {
    let base = Base::decimal();
    let digits: Vec<u32> = vec![];
    assert_eq!(
        i32::positive_from_digits(base, &digits),
        Err(IntAccumulatorError::NoDigits)
    );
}

#[test]
fn test_negative_from_digits() {
    let base = Base::decimal();
    let digits: Vec<u32> = vec![1, 2, 8];
    assert_eq!(i8::negative_from_digits(base, &digits), Ok(-128));
    assert_eq!(
        u8::negative_from_digits(base, &digits),
        Err(IntAccumulatorError::CannotBeNegative)
    );
}

#[test]
fn test_from_digits_digit_too_large() {
    let base = Base::binary();
    let digits: Vec<u32> = vec![1, 5];
    assert_eq!(
        i32::positive_from_digits(base, &digits),
        Err(IntAccumulatorError::DigitTooLarge { base, digit: 5 })
    );
}

#[test]
fn test_from_digits_out_of_range() {
    let base = Base::decimal();
    let digits: Vec<u32> = vec![2, 5, 6];
    assert_eq!(
        u8::positive_from_digits(base, &digits),
        Err(IntAccumulatorError::OutOfRange)
    );
}

#[test]
fn test_accumulator_push_and_finish() {
    let base = Base::decimal();
    let mut acc = IntAccumulator::<i32>::start_positive(base).unwrap();
    acc.push_digit(4).unwrap();
    acc.push_digit(2).unwrap();
    assert_eq!(acc.finish(), Ok(42));
}

#[test]
fn test_accumulator_digit_revalidated() {
    let base = Base::octal();
    let mut acc = IntAccumulator::<i32>::start_positive(base).unwrap();
    assert_eq!(
        acc.push_digit(9),
        Err(IntAccumulatorError::DigitTooLarge { base, digit: 9 })
    );
}

#[test]
fn test_accumulator_finish_no_digits() {
    let base = Base::decimal();
    let acc = IntAccumulator::<i32>::start_positive(base).unwrap();
    assert_eq!(acc.finish(), Err(IntAccumulatorError::NoDigits));
}

#[test]
fn test_unsigned_start_negative_fails() {
    let base = Base::decimal();
    assert_eq!(
        IntAccumulator::<u32>::start_negative(base).unwrap_err(),
        IntAccumulatorError::CannotBeNegative
    );
}

#[test]
fn test_unsigned_start_nonpositive_zero() {
    // the context in which "-0" is acceptable for a plain unsigned type
    let base = Base::decimal();
    let mut acc = IntAccumulator::<u32>::start_nonpositive(base).unwrap();
    acc.push_digit(0).unwrap();
    assert_eq!(acc.finish(), Ok(0));
}

#[test]
fn test_unsigned_start_nonpositive_underflow() {
    let base = Base::decimal();
    let mut acc = IntAccumulator::<u32>::start_nonpositive(base).unwrap();
    assert_eq!(acc.push_digit(1), Err(IntAccumulatorError::OutOfRange));
}

#[test]
fn test_signed_nonpositive_forwards_to_negative() {
    let base = Base::decimal();
    let mut acc = IntAccumulator::<i8>::start_nonpositive(base).unwrap();
    acc.push_digit(5).unwrap();
    assert_eq!(acc.finish(), Ok(-5));
}

#[test]
fn test_nonzero_accumulator_rejects_zero_at_finish() {
    let base = Base::decimal();
    let mut acc =
        NonZeroAccumulator::<IntAccumulator<i32>>::start_positive(base).unwrap();
    acc.push_digit(0).unwrap();
    assert_eq!(acc.finish(), Err(IntAccumulatorError::OutOfRange));
}

#[test]
fn test_nonzero_unsigned_nonpositive_fails() {
    // non-zero types do not override start_nonpositive, so the unsigned
    // non-zero accumulator rejects it outright
    let base = Base::decimal();
    let r: Result<NonZeroAccumulator<IntAccumulator<u32>>, _> =
        <NonZeroAccumulator<IntAccumulator<u32>> as Accumulator<NonZero<u32>>>::start_nonpositive(
            base,
        );
    assert_eq!(r.unwrap_err(), IntAccumulatorError::CannotBeNegative);
}

#[test]
fn test_signed_min_via_subtraction() {
    let base = Base::decimal();
    let mut acc = IntAccumulator::<i8>::start_negative(base).unwrap();
    acc.push_digit(1).unwrap();
    acc.push_digit(2).unwrap();
    acc.push_digit(8).unwrap();
    assert_eq!(acc.finish(), Ok(-128));
}

#[test]
fn test_nonzero_new_and_get() {
    assert_eq!(NonZero::new(0i32), None);
    assert_eq!(NonZero::new(7i32).unwrap().get(), 7);
    assert_eq!(NonZero::new(0u64), None);
    assert_eq!(NonZero::new(u64::MAX).unwrap().get(), u64::MAX);
}
