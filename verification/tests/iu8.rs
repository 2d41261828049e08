use strtoint::{strtoint, IntAccumulatorError, NonZero, StrToIntError, StrToPrimIntError};

fn assert_out_of_range(e: StrToPrimIntError) {
    assert!(
        matches!(
            e,
            StrToIntError::Accumulator {
                source: IntAccumulatorError::OutOfRange,
                ..
            }
        ),
        "expected OutOfRange error, got {:?}",
        e
    );
}

#[test]
fn test_strtoint_i8() {
    assert_eq!(strtoint::<i8>("0").unwrap(), 0);
    assert_eq!(strtoint::<i8>("1").unwrap(), 1);
    assert_eq!(strtoint::<i8>("-1").unwrap(), -1);
    assert_eq!(strtoint::<i8>("127").unwrap(), 127);
    assert_eq!(strtoint::<i8>("-128").unwrap(), -128);
}

#[test]
fn test_strtoint_i8_err() {
    assert_out_of_range(strtoint::<i8>("128").unwrap_err());
    assert_out_of_range(strtoint::<i8>("-129").unwrap_err());
}

#[test]
fn test_strtoint_u8() {
    assert_eq!(strtoint::<u8>("0").unwrap(), 0);
    assert_eq!(strtoint::<u8>("1").unwrap(), 1);
    assert_eq!(strtoint::<u8>("127").unwrap(), 127);
    assert_eq!(strtoint::<u8>("128").unwrap(), 128);
    assert_eq!(strtoint::<u8>("255").unwrap(), 255);
}

#[test]
fn test_strtoint_u8_err() {
    for s in ["-1", "-128", "-129"] {
        assert_eq!(
            strtoint::<u8>(s).unwrap_err(),
            StrToPrimIntError::InvalidCharacter {
                c: '-',
                position: 0
            }
        );
    }
    assert_out_of_range(strtoint::<u8>("256").unwrap_err());
}

#[test]
fn test_strtoint_nonzero_i8() {
    assert_eq!(
        strtoint::<NonZero<i8>>("1").unwrap(),
        NonZero::new(1i8).unwrap()
    );
    assert_eq!(
        strtoint::<NonZero<i8>>("-1").unwrap(),
        NonZero::new(-1i8).unwrap()
    );
    assert_eq!(
        strtoint::<NonZero<i8>>("127").unwrap(),
        NonZero::new(127i8).unwrap()
    );
    assert_eq!(
        strtoint::<NonZero<i8>>("-128").unwrap(),
        NonZero::new(-128i8).unwrap()
    );
}

#[test]
fn test_strtoint_nonzero_i8_err() {
    assert_out_of_range(strtoint::<NonZero<i8>>("0").unwrap_err());
    assert_out_of_range(strtoint::<NonZero<i8>>("128").unwrap_err());
    assert_out_of_range(strtoint::<NonZero<i8>>("-129").unwrap_err());
}

#[test]
fn test_strtoint_nonzero_u8() {
    assert_eq!(
        strtoint::<NonZero<u8>>("1").unwrap(),
        NonZero::new(1u8).unwrap()
    );
    assert_eq!(
        strtoint::<NonZero<u8>>("127").unwrap(),
        NonZero::new(127u8).unwrap()
    );
    assert_eq!(
        strtoint::<NonZero<u8>>("128").unwrap(),
        NonZero::new(128u8).unwrap()
    );
    assert_eq!(
        strtoint::<NonZero<u8>>("255").unwrap(),
        NonZero::new(255u8).unwrap()
    );
}

#[test]
fn test_strtoint_nonzero_u8_err() {
    assert_out_of_range(strtoint::<NonZero<u8>>("0").unwrap_err());
    for s in ["-1", "-128", "-129"] {
        assert_eq!(
            strtoint::<NonZero<u8>>(s).unwrap_err(),
            StrToPrimIntError::InvalidCharacter {
                c: '-',
                position: 0
            }
        );
    }
    assert_out_of_range(strtoint::<NonZero<u8>>("256").unwrap_err());
}
