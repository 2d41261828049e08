use strtoint::{Base, BaseError, IntAccumulatorError, StrToPrimIntError};

#[test]
fn test_display_error_no_digits() {
    assert_eq!(StrToPrimIntError::NoDigits.message(), "no digits in input");
}

#[test]
fn test_display_error_invalid_character() {
    assert_eq!(
        StrToPrimIntError::InvalidCharacter {
            c: '.',
            position: 2
        }
        .message(),
        "invalid character '.' at position 2"
    );
}

#[test]
fn test_display_error_out_of_range() {
    assert_eq!(
        StrToPrimIntError::Accumulator {
            source: IntAccumulatorError::OutOfRange,
            position: 2
        }
        .message(),
        "numeric error at position 2: accumulated value is out of range for numeric type"
    );
}

#[test]
fn test_display_error_cannot_be_negative() {
    assert_eq!(
        StrToPrimIntError::Accumulator {
            source: IntAccumulatorError::CannotBeNegative,
            position: 0
        }
        .message(),
        "numeric error at position 0: cannot start negative value for unsigned numeric type"
    );
}

#[test]
fn test_display_error_digit_too_large() {
    let base = Base::new(8).unwrap();
    assert_eq!(
        IntAccumulatorError::DigitTooLarge { base, digit: 9 }.message(),
        "accumulator received digit 9 out of range for base 8"
    );
}

#[test]
fn test_display_error_no_digits_accumulator() {
    assert_eq!(
        IntAccumulatorError::NoDigits.message(),
        "no digits provided to accumulator"
    );
}

#[test]
fn test_display_error_invalid_character_large_position() {
    assert_eq!(
        StrToPrimIntError::InvalidCharacter {
            c: 'q',
            position: 1234567890
        }
        .message(),
        "invalid character 'q' at position 1234567890"
    );
}

#[test]
fn test_display_base_error() {
    assert_eq!(
        BaseError.message(),
        "integer base must be between 2 and 36, inclusive"
    );
}
