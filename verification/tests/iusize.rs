use strtoint::{strtoint, IntAccumulatorError, NonZero, StrToIntError, StrToPrimIntError};

fn assert_out_of_range(e: StrToPrimIntError) {
    assert!(
        matches!(
            e,
            StrToIntError::Accumulator {
                source: IntAccumulatorError::OutOfRange,
                ..
            }
        ),
        "expected OutOfRange error, got {:?}",
        e
    );
}

#[test]
fn test_strtoint_isize() {
    assert_eq!(strtoint::<isize>("0").unwrap(), 0);
    assert_eq!(strtoint::<isize>("1").unwrap(), 1);
    assert_eq!(strtoint::<isize>("-1").unwrap(), -1);
    assert_eq!(strtoint::<isize>("32767").unwrap(), 32767);
    assert_eq!(strtoint::<isize>("-32768").unwrap(), -32768);
    assert_eq!(strtoint::<isize>("2147483647").unwrap(), 2147483647);
    assert_eq!(strtoint::<isize>("-2147483648").unwrap(), -2147483648);
    assert_eq!(
        strtoint::<isize>("9223372036854775807").unwrap(),
        9223372036854775807
    );
    assert_eq!(
        strtoint::<isize>("-9223372036854775808").unwrap(),
        -9223372036854775808
    );
}

#[test]
fn test_strtoint_isize_err() {
    assert_out_of_range(strtoint::<isize>("0xffff_ffff_ffff_ffff_ffff_ffff_ffff_ffff_ffff").unwrap_err());
}

#[test]
fn test_strtoint_usize() {
    assert_eq!(strtoint::<usize>("0").unwrap(), 0);
    assert_eq!(strtoint::<usize>("1").unwrap(), 1);
    assert_eq!(strtoint::<usize>("32767").unwrap(), 32767);
    assert_eq!(strtoint::<usize>("32768").unwrap(), 32768);
    assert_eq!(strtoint::<usize>("65535").unwrap(), 65535);
    assert_eq!(strtoint::<usize>("2147483647").unwrap(), 2147483647);
    assert_eq!(strtoint::<usize>("2147483648").unwrap(), 2147483648);
    assert_eq!(strtoint::<usize>("4294967295").unwrap(), 4294967295);
    assert_eq!(
        strtoint::<usize>("9223372036854775807").unwrap(),
        9223372036854775807
    );
    assert_eq!(
        strtoint::<usize>("9223372036854775808").unwrap(),
        9223372036854775808
    );
    assert_eq!(
        strtoint::<usize>("18446744073709551615").unwrap(),
        18446744073709551615
    );
}

#[test]
fn test_strtoint_usize_err() {
    for s in [
        "-1",
        "-32768",
        "-32769",
        "-9223372036854775807",
        "-9223372036854775808",
    ] {
        assert_eq!(
            strtoint::<usize>(s).unwrap_err(),
            StrToPrimIntError::InvalidCharacter {
                c: '-',
                position: 0
            }
        );
    }
    assert_out_of_range(strtoint::<usize>("0xffff_ffff_ffff_ffff_ffff_ffff_ffff_ffff_ffff").unwrap_err());
}

#[test]
fn test_strtoint_nonzero_isize() {
    assert_eq!(
        strtoint::<NonZero<isize>>("1").unwrap(),
        NonZero::new(1isize).unwrap()
    );
    assert_eq!(
        strtoint::<NonZero<isize>>("-1").unwrap(),
        NonZero::new(-1isize).unwrap()
    );
    assert_eq!(
        strtoint::<NonZero<isize>>("9223372036854775807").unwrap(),
        NonZero::new(9223372036854775807isize).unwrap()
    );
    assert_eq!(
        strtoint::<NonZero<isize>>("-9223372036854775808").unwrap(),
        NonZero::new(-9223372036854775808isize).unwrap()
    );
}

#[test]
fn test_strtoint_nonzero_isize_err() {
    assert_out_of_range(strtoint::<NonZero<isize>>("0").unwrap_err());
    assert_out_of_range(
        strtoint::<NonZero<isize>>("0xffff_ffff_ffff_ffff_ffff_ffff_ffff_ffff_ffff").unwrap_err(),
    );
}

#[test]
fn test_strtoint_nonzero_usize() {
    assert_eq!(
        strtoint::<NonZero<usize>>("1").unwrap(),
        NonZero::new(1usize).unwrap()
    );
    assert_eq!(
        strtoint::<NonZero<usize>>("65535").unwrap(),
        NonZero::new(65535usize).unwrap()
    );
    assert_eq!(
        strtoint::<NonZero<usize>>("18446744073709551615").unwrap(),
        NonZero::new(18446744073709551615usize).unwrap()
    );
}

#[test]
fn test_strtoint_nonzero_usize_err() {
    assert_out_of_range(strtoint::<NonZero<usize>>("0").unwrap_err());
    for s in ["-1", "-32768", "-32769"] {
        assert_eq!(
            strtoint::<NonZero<usize>>(s).unwrap_err(),
            StrToPrimIntError::InvalidCharacter {
                c: '-',
                position: 0
            }
        );
    }
    assert_out_of_range(
        strtoint::<NonZero<usize>>("0xffff_ffff_ffff_ffff_ffff_ffff_ffff_ffff_ffff").unwrap_err(),
    );
}
