use strtoint::{strtoint, IntAccumulatorError, NonZero, StrToIntError, StrToPrimIntError};

fn assert_out_of_range(e: StrToPrimIntError) {
    assert!(
        matches!(
            e,
            StrToIntError::Accumulator {
                source: IntAccumulatorError::OutOfRange,
                ..
            }
        ),
        "expected OutOfRange error, got {:?}",
        e
    );
}

#[test]
fn test_strtoint_i128() {
    assert_eq!(strtoint::<i128>("0").unwrap(), 0);
    assert_eq!(strtoint::<i128>("1").unwrap(), 1);
    assert_eq!(strtoint::<i128>("-1").unwrap(), -1);
    assert_eq!(
        strtoint::<i128>("170141183460469231731687303715884105727").unwrap(),
        170141183460469231731687303715884105727
    );
    assert_eq!(
        strtoint::<i128>("-170141183460469231731687303715884105728").unwrap(),
        -170141183460469231731687303715884105728
    );
}

#[test]
fn test_strtoint_i128_out_of_range() {
    assert_out_of_range(strtoint::<i128>("170141183460469231731687303715884105728").unwrap_err());
    assert_out_of_range(strtoint::<i128>("-170141183460469231731687303715884105729").unwrap_err());
}

#[test]
fn test_strtoint_u128() {
    assert_eq!(strtoint::<u128>("0").unwrap(), 0);
    assert_eq!(strtoint::<u128>("1").unwrap(), 1);
    assert_eq!(
        strtoint::<u128>("170141183460469231731687303715884105727").unwrap(),
        170141183460469231731687303715884105727
    );
    assert_eq!(
        strtoint::<u128>("170141183460469231731687303715884105728").unwrap(),
        170141183460469231731687303715884105728
    );
    assert_eq!(
        strtoint::<u128>("340282366920938463463374607431768211455").unwrap(),
        340282366920938463463374607431768211455
    );
}

#[test]
fn test_strtoint_u128_negative() {
    for s in [
        "-1",
        "-170141183460469231731687303715884105727",
        "-170141183460469231731687303715884105728",
    ] {
        assert_eq!(
            strtoint::<u128>(s).unwrap_err(),
            StrToPrimIntError::InvalidCharacter {
                c: '-',
                position: 0
            }
        );
    }
}

#[test]
fn test_strtoint_u128_out_of_range() {
    let s = "340282366920938463463374607431768211456";
    assert_out_of_range(strtoint::<u128>(s).unwrap_err());
}

#[test]
fn test_strtoint_nonzero_i128() {
    assert_eq!(
        strtoint::<NonZero<i128>>("1").unwrap(),
        NonZero::new(1i128).unwrap()
    );
    assert_eq!(
        strtoint::<NonZero<i128>>("-1").unwrap(),
        NonZero::new(-1i128).unwrap()
    );
    assert_eq!(
        strtoint::<NonZero<i128>>("170141183460469231731687303715884105727").unwrap(),
        NonZero::new(170141183460469231731687303715884105727i128).unwrap()
    );
    assert_eq!(
        strtoint::<NonZero<i128>>("-170141183460469231731687303715884105728").unwrap(),
        NonZero::new(-170141183460469231731687303715884105728i128).unwrap()
    );
}

#[test]
fn test_strtoint_nonzero_i128_out_of_range() {
    assert_out_of_range(strtoint::<NonZero<i128>>("0").unwrap_err());
    assert_out_of_range(
        strtoint::<NonZero<i128>>("170141183460469231731687303715884105728").unwrap_err(),
    );
    assert_out_of_range(
        strtoint::<NonZero<i128>>("-170141183460469231731687303715884105729").unwrap_err(),
    );
}

#[test]
fn test_strtoint_nonzero_u128() {
    assert_eq!(
        strtoint::<NonZero<u128>>("1").unwrap(),
        NonZero::new(1u128).unwrap()
    );
    assert_eq!(
        strtoint::<NonZero<u128>>("170141183460469231731687303715884105727").unwrap(),
        NonZero::new(170141183460469231731687303715884105727u128).unwrap()
    );
    assert_eq!(
        strtoint::<NonZero<u128>>("170141183460469231731687303715884105728").unwrap(),
        NonZero::new(170141183460469231731687303715884105728u128).unwrap()
    );
    assert_eq!(
        strtoint::<NonZero<u128>>("340282366920938463463374607431768211455").unwrap(),
        NonZero::new(340282366920938463463374607431768211455u128).unwrap()
    );
}

#[test]
fn test_strtoint_nonzero_u128_negative() {
    for s in [
        "-1",
        "-170141183460469231731687303715884105727",
        "-170141183460469231731687303715884105728",
    ] {
        assert_eq!(
            strtoint::<NonZero<u128>>(s).unwrap_err(),
            StrToPrimIntError::InvalidCharacter {
                c: '-',
                position: 0
            }
        );
    }
}

#[test]
fn test_strtoint_nonzero_u128_out_of_range() {
    assert_out_of_range(strtoint::<NonZero<u128>>("0").unwrap_err());
    assert_out_of_range(
        strtoint::<NonZero<u128>>("340282366920938463463374607431768211456").unwrap_err(),
    );
}
