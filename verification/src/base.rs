//! Numeric radixes and the classification of digit characters.

use vstd::prelude::*;

verus! {

/// Maps a character to its digit value under the standard alphanumeric
/// mapping: `0`-`9` give 0 through 9, and letters give 10 through 35,
/// case-insensitively.  Characters outside that set have no digit value.
pub open spec fn char_digit(c: char) -> Option<u32> {
    let u = c as u32;
    if '0' as u32 <= u <= '9' as u32 {
        Some((u - '0' as u32) as u32)
    } else if 'a' as u32 <= u <= 'z' as u32 {
        Some((u - 'a' as u32 + 10) as u32)
    } else if 'A' as u32 <= u <= 'Z' as u32 {
        Some((u - 'A' as u32 + 10) as u32)
    } else {
        None
    }
}

/// Maps a character to its digit value in the given radix: the alphanumeric
/// digit value, provided it is below the radix.
pub open spec fn spec_parse_digit(c: char, base: u32) -> Option<u32> {
    match char_digit(c) {
        Some(d) => if d < base {
            Some(d)
        } else {
            None
        },
        None => None,
    }
}

/// Error returned when constructing a [`Base`] from an integer outside the
/// range 2 to 36 inclusive.
#[derive(Copy, Clone, Debug, Eq, Hash, Ord, PartialEq, PartialOrd)]
pub struct BaseError;

impl BaseError {
    /// A human-readable rendering of the error.
    pub fn message(&self) -> (r: &'static str)
        ensures
            r@ == "integer base must be between 2 and 36, inclusive"@,
    {
        "integer base must be between 2 and 36, inclusive"
    }
}

/// A numeric radix, an integer between 2 and 36 inclusive.
#[derive(Copy, Clone, Debug, Eq, Hash, Ord, PartialEq, PartialOrd)]
pub struct Base(u32);

impl Base {
    /// The radix as an integer.
    pub closed spec fn spec_get(&self) -> u32 {
        self.0
    }

    /// Every `Base` that can be constructed lies between 2 and 36 inclusive.
    pub open spec fn wf(self) -> bool {
        2 <= self.spec_get() <= 36
    }

    /// The decimal radix, 10.
    pub fn decimal() -> (r: Base)
        ensures
            r.spec_get() == 10,
    {
        Base(10)
    }

    /// The hexadecimal radix, 16.
    pub fn hexadecimal() -> (r: Base)
        ensures
            r.spec_get() == 16,
    {
        Base(16)
    }

    /// The octal radix, 8.
    pub fn octal() -> (r: Base)
        ensures
            r.spec_get() == 8,
    {
        Base(8)
    }

    /// The binary radix, 2.
    pub fn binary() -> (r: Base)
        ensures
            r.spec_get() == 2,
    {
        Base(2)
    }

    /// Constructs a radix from a raw integer, rejecting values outside
    /// 2 to 36 inclusive.
    pub fn new(value: u32) -> (r: Result<Base, BaseError>)
        ensures
            2 <= value <= 36 ==> (r matches Ok(b) && b.spec_get() == value),
            !(2 <= value <= 36) ==> r == Err::<Base, BaseError>(BaseError),
    {
        if 2 <= value && value <= 36 {
            Ok(Base(value))
        } else {
            Err(BaseError)
        }
    }

    /// The radix as an integer.
    #[verifier::when_used_as_spec(spec_get)]
    pub fn get(&self) -> (r: u32)
        ensures
            r == self.spec_get(),
    {
        self.0
    }

    /// Maps a character to its digit value in this radix, following the
    /// standard alphanumeric mapping (`0`-`9`, then letters
    /// case-insensitively), or nothing if the character is not a digit of
    /// this radix.
    pub fn parse_digit(&self, c: char) -> (r: Option<u32>)
        ensures
            r == spec_parse_digit(c, self.spec_get()),
    {
        let u = c as u32;
        let d: Option<u32> = if '0' as u32 <= u && u <= '9' as u32 {
            Some(u - '0' as u32)
        } else if 'a' as u32 <= u && u <= 'z' as u32 {
            Some(u - 'a' as u32 + 10)
        } else if 'A' as u32 <= u && u <= 'Z' as u32 {
            Some(u - 'A' as u32 + 10)
        } else {
            None
        };
        match d {
            Some(d) => if d < self.0 {
                Some(d)
            } else {
                None
            },
            None => None,
        }
    }
}

} // verus!
