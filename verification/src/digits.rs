//! Digit characters and the rendering of numbers as digit strings.

use vstd::prelude::*;
use vstd::string::StringExecFns;
use crate::base::char_digit;
use crate::base::Base;

verus! {

/// The lowercase digit character for a digit value below 36: `0`-`9` for
/// values 0 through 9, then `a`-`z`.
pub open spec fn spec_digit_char(d: u32) -> char {
    if d == 0 { '0' }
    else if d == 1 { '1' }
    else if d == 2 { '2' }
    else if d == 3 { '3' }
    else if d == 4 { '4' }
    else if d == 5 { '5' }
    else if d == 6 { '6' }
    else if d == 7 { '7' }
    else if d == 8 { '8' }
    else if d == 9 { '9' }
    else if d == 10 { 'a' }
    else if d == 11 { 'b' }
    else if d == 12 { 'c' }
    else if d == 13 { 'd' }
    else if d == 14 { 'e' }
    else if d == 15 { 'f' }
    else if d == 16 { 'g' }
    else if d == 17 { 'h' }
    else if d == 18 { 'i' }
    else if d == 19 { 'j' }
    else if d == 20 { 'k' }
    else if d == 21 { 'l' }
    else if d == 22 { 'm' }
    else if d == 23 { 'n' }
    else if d == 24 { 'o' }
    else if d == 25 { 'p' }
    else if d == 26 { 'q' }
    else if d == 27 { 'r' }
    else if d == 28 { 's' }
    else if d == 29 { 't' }
    else if d == 30 { 'u' }
    else if d == 31 { 'v' }
    else if d == 32 { 'w' }
    else if d == 33 { 'x' }
    else if d == 34 { 'y' }
    else { 'z' }
}

/// The digit character of a digit value maps back to that value.
pub proof fn lemma_digit_char_roundtrip(d: u32)
    requires
        d < 36,
    ensures
        char_digit(spec_digit_char(d)) == Some(d),
{
}

/// The digit string of `n` in radix `b`, most significant digit first, using
/// lowercase digit characters and no leading zero (except for `n == 0`,
/// rendered as a single `0`).
pub open spec fn base_repr(n: nat, b: nat) -> Seq<char>
    recommends
        2 <= b <= 36,
    decreases n,
    via base_repr_decreases
{
    if n < b || b <= 1 {
        seq![spec_digit_char(n as u32)]
    } else {
        base_repr(n / b, b).push(spec_digit_char((n % b) as u32))
    }
}

#[via_fn]
proof fn base_repr_decreases(n: nat, b: nat) {
    if !(n < b || b <= 1) {
        vstd::arithmetic::div_mod::lemma_div_decreases(n as int, b as int);
    }
}

/// The lowercase digit character for a digit value below 36.
pub fn digit_char(d: u32) -> (c: char)
    requires
        d < 36,
    ensures
        c == spec_digit_char(d),
{
    match d {
        0 => '0',
        1 => '1',
        2 => '2',
        3 => '3',
        4 => '4',
        5 => '5',
        6 => '6',
        7 => '7',
        8 => '8',
        9 => '9',
        10 => 'a',
        11 => 'b',
        12 => 'c',
        13 => 'd',
        14 => 'e',
        15 => 'f',
        16 => 'g',
        17 => 'h',
        18 => 'i',
        19 => 'j',
        20 => 'k',
        21 => 'l',
        22 => 'm',
        23 => 'n',
        24 => 'o',
        25 => 'p',
        26 => 'q',
        27 => 'r',
        28 => 's',
        29 => 't',
        30 => 'u',
        31 => 'v',
        32 => 'w',
        33 => 'x',
        34 => 'y',
        _ => 'z',
    }
}

/// Relies on std's `String::push`: appends the given character to the end of
/// the string.
pub assume_specification[ String::push ](s: &mut String, c: char)
    ensures
        final(s)@ == old(s)@.push(c),
;

/// Appends the digit string of `n` in radix `base` to `out`.
pub fn push_radix(out: &mut String, n: u128, base: &Base)
    requires
        base.wf(),
    ensures
        final(out)@ == old(out)@ + base_repr(n as nat, base.spec_get() as nat),
    decreases n,
{
    let b = base.get();
    if n >= b as u128 {
        proof {
            vstd::arithmetic::div_mod::lemma_div_decreases(n as int, b as int);
        }
        push_radix(out, n / (b as u128), base);
    }
    let d = (n % (b as u128)) as u32;
    out.push(digit_char(d));
    proof {
        if n < b {
            assert(base_repr(n as nat, b as nat) =~= Seq::<char>::empty().push(
                spec_digit_char(n as u32)));
            assert(base_repr(n as nat, b as nat) == seq![spec_digit_char(n as u32)]);
            vstd::arithmetic::div_mod::lemma_small_mod(n as nat, b as nat);
            assert(d == n);
        } else {
            assert((n / (b as u128)) as nat == n as nat / b as nat);
            assert(d == n as nat % b as nat);
            assert(base_repr(n as nat, b as nat) == base_repr(n as nat / b as nat, b as nat).push(
                spec_digit_char(d)));
        }
        assert(out@ =~= old(out)@ + base_repr(n as nat, b as nat));
    }
}

/// The lowercase base prefix written for each of the four supported
/// radixes: `0x`, `0o`, `0b`, and nothing for decimal.
pub open spec fn literal_prefix(b: int) -> Seq<char> {
    if b == 16 {
        seq!['0', 'x']
    } else if b == 8 {
        seq!['0', 'o']
    } else if b == 2 {
        seq!['0', 'b']
    } else {
        Seq::<char>::empty()
    }
}

/// The sign written for a direction: `-` or nothing.
pub open spec fn sign_seq(negative: bool) -> Seq<char> {
    if negative {
        seq!['-']
    } else {
        Seq::<char>::empty()
    }
}

/// A literal written out for a magnitude: the optional sign, the prefix
/// of the radix, and the digits of the magnitude in that radix.
pub open spec fn rendered_literal(m: nat, b: int, negative: bool) -> Seq<char> {
    sign_seq(negative) + literal_prefix(b) + base_repr(m, b as nat)
}

/// Writes a value as an integer literal: the optional minus sign, the
/// lowercase base prefix for radix 2, 8, or 16, then the digits of the
/// magnitude in the radix.
pub fn radix_literal(negative: bool, magnitude: u128, base: &Base) -> (r: String)
    requires
        base.spec_get() == 2 || base.spec_get() == 8 || base.spec_get() == 10
            || base.spec_get() == 16,
    ensures
        r@ == rendered_literal(magnitude as nat, base.spec_get() as int, negative),
{
    let b = base.get();
    let mut out = if negative {
        String::from_str("-")
    } else {
        String::new()
    };
    proof {
        reveal_strlit("-");
        assert(out@ =~= sign_seq(negative));
    }
    if b == 16 {
        out.append("0x");
        proof {
            reveal_strlit("0x");
        }
    } else if b == 8 {
        out.append("0o");
        proof {
            reveal_strlit("0o");
        }
    } else if b == 2 {
        out.append("0b");
        proof {
            reveal_strlit("0b");
        }
    }
    proof {
        assert(out@ =~= sign_seq(negative) + literal_prefix(b as int));
    }
    push_radix(&mut out, magnitude, base);
    proof {
        assert(out@ =~= rendered_literal(magnitude as nat, b as int, negative));
    }
    out
}

/// Appends the decimal digit string of `n` to `out`.
pub fn push_decimal(out: &mut String, n: u128)
    ensures
        final(out)@ == old(out)@ + base_repr(n as nat, 10),
{
    let base = Base::decimal();
    push_radix(out, n, &base);
}

} // verus!
