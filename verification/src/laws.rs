//! Laws of the parser: what well-formed literals denote, round trips
//! through formatting, determinism, and the behaviour at range boundaries,
//! stated over the specification model and proved once for every target
//! type.

use vstd::prelude::*;
use crate::accum::Accumulator;
use crate::base::char_digit;
use crate::base::spec_parse_digit;
use crate::digits::base_repr;
use crate::digits::lemma_digit_char_roundtrip;
use crate::digits::literal_prefix;
use crate::digits::rendered_literal;
use crate::digits::sign_seq;
use crate::digits::spec_digit_char;
use crate::errors::StrToIntError;
use crate::parse::is_negative_input;
use crate::parse::parse_post;
use crate::parse::parse_spec;
use crate::parse::prefix_base;
use crate::parse::prefix_len;
use crate::parse::scan_digits;
use crate::parse::sign_len;

verus! {

/// The digit value of a character in the given radix, or 0 for a
/// character that is no digit of it.
pub open spec fn digit_of(c: char, base: int) -> int {
    match spec_parse_digit(c, base as u32) {
        Some(d) => d as int,
        None => 0,
    }
}

/// Whether every character from position `i` on is a separator or a digit
/// of the radix.
pub open spec fn clean_tail(s: Seq<char>, i: int, base: int) -> bool {
    forall|k: int|
        i <= k < s.len() ==> (s[k] == '_' || #[trigger] spec_parse_digit(s[k], base as u32) is Some)
}

/// Whether some character from position `i` on is a digit (not a
/// separator).
pub open spec fn tail_has_digit(s: Seq<char>, i: int) -> bool {
    exists|k: int| i <= k < s.len() && #[trigger] s[k] != '_'
}

/// The value denoted by the digits from position `i` on, ignoring
/// separators, folded left to right into `acc` by multiplication with the
/// radix and addition (or, with `negative`, subtraction) of each digit.
pub open spec fn tail_value_from(s: Seq<char>, i: int, base: int, negative: bool, acc: int) -> int
    decreases s.len() - i,
{
    if i < 0 || i >= s.len() {
        acc
    } else if s[i] == '_' {
        tail_value_from(s, i + 1, base, negative, acc)
    } else {
        let stepped = if negative {
            acc * base - digit_of(s[i], base)
        } else {
            acc * base + digit_of(s[i], base)
        };
        tail_value_from(s, i + 1, base, negative, stepped)
    }
}

/// Folding digits never moves the value toward zero: positive
/// accumulation never decreases it, negative accumulation never increases
/// it.
pub proof fn lemma_tail_value_monotone(s: Seq<char>, i: int, base: int, negative: bool, acc: int)
    requires
        base >= 2,
        !negative ==> acc >= 0,
        negative ==> acc <= 0,
    ensures
        !negative ==> tail_value_from(s, i, base, negative, acc) >= acc,
        negative ==> tail_value_from(s, i, base, negative, acc) <= acc,
    decreases s.len() - i,
{
    if 0 <= i < s.len() {
        if s[i] == '_' {
            lemma_tail_value_monotone(s, i + 1, base, negative, acc);
        } else {
            let d = digit_of(s[i], base);
            if negative {
                let stepped = acc * base - d;
                assert(acc * base <= acc) by (nonlinear_arith)
                    requires
                        acc <= 0,
                        base >= 2,
                ;
                lemma_tail_value_monotone(s, i + 1, base, negative, stepped);
            } else {
                let stepped = acc * base + d;
                assert(acc * base >= acc) by (nonlinear_arith)
                    requires
                        acc >= 0,
                        base >= 2,
                ;
                lemma_tail_value_monotone(s, i + 1, base, negative, stepped);
            }
        }
    }
}

/// What one pass over a well-formed digit tail yields: the folded value
/// when it stays in the range, and otherwise the out-of-range error.
/// A tail is well formed here when every
/// character is a separator or a digit of the radix, and, for an
/// unprefixed decimal literal that has not seen a digit yet, when it does
/// not begin with a separator.
pub proof fn lemma_scan_clean_tail<E>(
    s: Seq<char>,
    i: int,
    base: int,
    negative: bool,
    lo: int,
    hi: int,
    e_oor: E,
    value: int,
    any: bool,
)
    requires
        0 <= i <= s.len(),
        2 <= base <= 36,
        lo <= 0 <= hi,
        lo <= value <= hi,
        !negative ==> value >= 0,
        negative ==> value <= 0,
        clean_tail(s, i, base),
        base == 10 && !any ==> (i == s.len() || s[i] != '_'),
    ensures
        ({
            let v = tail_value_from(s, i, base, negative, value);
            let r = scan_digits(s, i, base, negative, lo, hi, e_oor, value, any);
            if lo <= v <= hi {
                r == Ok::<(int, bool), StrToIntError<E>>(
                    (v, any || tail_has_digit(s, i)),
                )
            } else {
                r matches Err(StrToIntError::Accumulator { source, position }) && source == e_oor
            }
        }),
    decreases s.len() - i,
{
    if i >= s.len() {
        assert(!tail_has_digit(s, i));
    } else if s[i] == '_' {
        lemma_scan_clean_tail(s, i + 1, base, negative, lo, hi, e_oor, value, any);
        assert(tail_value_from(s, i, base, negative, value) == tail_value_from(
            s,
            i + 1,
            base,
            negative,
            value,
        ));
        assert(tail_has_digit(s, i) == tail_has_digit(s, i + 1)) by {
            if tail_has_digit(s, i + 1) {
                assert(tail_has_digit(s, i));
            }
            if tail_has_digit(s, i) {
                let k = choose|k: int| i <= k < s.len() && s[k] != '_';
                assert(k != i);
                assert(i + 1 <= k < s.len() && s[k] != '_');
            }
        }
    } else {
        let d = digit_of(s[i], base);
        assert(spec_parse_digit(s[i], base as u32) is Some);
        assert(0 <= d < base);
        let proposed = if negative {
            value * base - d
        } else {
            value * base + d
        };
        if negative {
            assert(value * base <= value && value * base <= 0) by (nonlinear_arith)
                requires
                    value <= 0,
                    base >= 2,
            ;
        } else {
            assert(value * base >= value && value * base >= 0) by (nonlinear_arith)
                requires
                    value >= 0,
                    base >= 2,
            ;
        }
        if proposed < lo || proposed > hi {
            // the fold keeps moving away from zero, so the final value is
            // out of range as well
            lemma_tail_value_monotone(s, i + 1, base, negative, proposed);
            assert(scan_digits(s, i, base, negative, lo, hi, e_oor, value, any)
                == Err::<(int, bool), StrToIntError<E>>(
                StrToIntError::Accumulator { source: e_oor, position: i as usize },
            ));
        } else {
            lemma_scan_clean_tail(s, i + 1, base, negative, lo, hi, e_oor, proposed, true);
            assert(s[i] != '_');
            assert(tail_has_digit(s, i));
        }
    }
}

/// A well-formed integer literal: an optional sign, then an optional
/// lowercase base prefix, then a tail in which every character is a
/// separator or a digit of the selected radix, with at least one digit,
/// and, for an unprefixed decimal literal, no separator before the first
/// digit.
pub open spec fn well_formed_literal(s: Seq<char>) -> bool {
    let i0 = sign_len(s);
    let b = prefix_base(s, i0);
    let i1 = i0 + prefix_len(s, i0);
    &&& clean_tail(s, i1, b)
    &&& tail_has_digit(s, i1)
    &&& (b == 10 ==> (i1 >= s.len() || s[i1] != '_'))
}

/// The value a well-formed literal denotes: its digits read in the
/// selected radix, negated when the literal carries a minus sign.
pub open spec fn literal_value(s: Seq<char>) -> int {
    let i0 = sign_len(s);
    let b = prefix_base(s, i0);
    let i1 = i0 + prefix_len(s, i0);
    tail_value_from(s, i1, b, is_negative_input(s), 0)
}

/// What parsing a well-formed literal yields, for a target range
/// `lo ..= hi`: its denoted value when the type admits it; the invalid
/// character error at position 0 for a minus sign on a type without
/// negative values; the out-of-range error when the value leaves the
/// range; and the out-of-range error at the last position when the
/// value is zero and the type excludes zero.
pub proof fn lemma_parse_well_formed<E>(
    s: Seq<char>,
    lo: int,
    hi: int,
    can_neg: bool,
    zero_ok: bool,
    e_oor: E,
)
    requires
        lo <= 0 <= hi,
        well_formed_literal(s),
    ensures
        ({
            let v = literal_value(s);
            let r = parse_spec(s, lo, hi, can_neg, zero_ok, e_oor);
            if is_negative_input(s) && !can_neg {
                r == Err::<int, StrToIntError<E>>(
                    StrToIntError::InvalidCharacter { c: '-', position: 0 },
                )
            } else if !(lo <= v <= hi) {
                r matches Err(StrToIntError::Accumulator { source, position }) && source == e_oor
            } else if v == 0 && !zero_ok {
                r == Err::<int, StrToIntError<E>>(
                    StrToIntError::Accumulator {
                        source: e_oor,
                        position: (s.len() - 1) as usize,
                    },
                )
            } else {
                r == Ok::<int, StrToIntError<E>>(v)
            }
        }),
{
    let i0 = sign_len(s);
    let b = prefix_base(s, i0);
    let i1 = i0 + prefix_len(s, i0);
    let neg = is_negative_input(s);
    if !(neg && !can_neg) {
        assert(i1 <= s.len()) by {
            if b != 10 {
                assert(i0 + 2 <= s.len());
            }
        }
        lemma_scan_clean_tail(s, i1, b, neg, lo, hi, e_oor, 0, false);
    }
}

/// Appending one more digit character to the tail multiplies the folded
/// value by the radix and adds (or, negatively, subtracts) that digit.
proof fn lemma_tail_value_snoc(s: Seq<char>, i: int, base: int, negative: bool, acc: int, c: char)
    requires
        0 <= i <= s.len(),
        c != '_',
    ensures
        tail_value_from(s.push(c), i, base, negative, acc) == if negative {
            tail_value_from(s, i, base, negative, acc) * base - digit_of(c, base)
        } else {
            tail_value_from(s, i, base, negative, acc) * base + digit_of(c, base)
        },
    decreases s.len() - i,
{
    let t = s.push(c);
    if i == s.len() {
        assert(t[i] == c);
        assert(tail_value_from(t, i + 1, base, negative, if negative {
            acc * base - digit_of(c, base)
        } else {
            acc * base + digit_of(c, base)
        }) == if negative {
            acc * base - digit_of(c, base)
        } else {
            acc * base + digit_of(c, base)
        });
    } else {
        assert(t[i] == s[i]);
        if s[i] == '_' {
            lemma_tail_value_snoc(s, i + 1, base, negative, acc, c);
        } else {
            let stepped = if negative {
                acc * base - digit_of(s[i], base)
            } else {
                acc * base + digit_of(s[i], base)
            };
            lemma_tail_value_snoc(s, i + 1, base, negative, stepped, c);
        }
    }
}

/// Every character of a digit string rendered by [`base_repr`] is a digit
/// of that radix, and the string is never empty.
pub proof fn lemma_base_repr_digits(n: nat, b: nat)
    requires
        2 <= b <= 36,
    ensures
        base_repr(n, b).len() >= 1,
        forall|k: int|
            0 <= k < base_repr(n, b).len() ==> #[trigger] spec_parse_digit(
                base_repr(n, b)[k],
                b as u32,
            ) is Some,
    decreases n,
{
    if n < b {
        lemma_digit_char_roundtrip(n as u32);
        assert(spec_parse_digit(base_repr(n, b)[0], b as u32) is Some);
    } else {
        vstd::arithmetic::div_mod::lemma_div_decreases(n as int, b as int);
        vstd::arithmetic::div_mod::lemma_mod_bound(n as int, b as int);
        lemma_base_repr_digits(n / b, b);
        lemma_digit_char_roundtrip((n % b) as u32);
        let r = base_repr(n, b);
        let r0 = base_repr(n / b, b);
        assert forall|k: int| 0 <= k < r.len() implies #[trigger] spec_parse_digit(
            r[k],
            b as u32,
        ) is Some by {
            if k < r0.len() {
                assert(r[k] == r0[k]);
            } else {
                assert(r[k] == spec_digit_char((n % b) as u32));
            }
        }
    }
}

/// The digit string rendered by [`base_repr`], appended after any run of
/// characters, folds back to the number it was rendered from.
pub proof fn lemma_tail_value_of_repr(head: Seq<char>, n: nat, b: nat, negative: bool)
    requires
        2 <= b <= 36,
    ensures
        tail_value_from(head + base_repr(n, b), head.len() as int, b as int, negative, 0)
            == if negative {
            -(n as int)
        } else {
            n as int
        },
    decreases n,
{
    let i = head.len() as int;
    if n < b {
        let c = spec_digit_char(n as u32);
        lemma_digit_char_roundtrip(n as u32);
        assert(digit_of(c, b as int) == n);
        let t = head + base_repr(n, b);
        assert(t =~= head.push(c));
        assert(t.len() == head.len() + 1);
        assert(t[i] == c);
        assert(c != '_') by {
            assert(spec_parse_digit(c, b as u32) is Some);
        }
        let stepped = if negative {
            0 - digit_of(c, b as int)
        } else {
            0 + digit_of(c, b as int)
        };
        assert(tail_value_from(t, i + 1, b as int, negative, stepped) == stepped);
        assert(tail_value_from(t, i, b as int, negative, 0) == stepped);
    } else {
        vstd::arithmetic::div_mod::lemma_div_decreases(n as int, b as int);
        vstd::arithmetic::div_mod::lemma_mod_bound(n as int, b as int);
        lemma_tail_value_of_repr(head, n / b, b, negative);
        let d = (n % b) as u32;
        let c = spec_digit_char(d);
        lemma_digit_char_roundtrip(d);
        assert(digit_of(c, b as int) == n % b);
        assert(c != '_') by {
            assert(spec_parse_digit(c, b as u32) is Some);
        }
        let t0 = head + base_repr(n / b, b);
        lemma_tail_value_snoc(t0, i, b as int, negative, 0, c);
        assert(t0.push(c) =~= head + base_repr(n, b));
        vstd::arithmetic::div_mod::lemma_fundamental_div_mod(n as int, b as int);
        assert((n / b) * b == (n as int / b as int) * (b as int));
        if negative {
            assert(-(n as int / b as int) * (b as int) - (n as int % b as int) == -(n as int))
                by (nonlinear_arith)
                requires
                    b >= 2,
                    n as int == (b as int) * (n as int / b as int) + (n as int % b as int),
            ;
        } else {
            assert((n as int / b as int) * (b as int) + (n as int % b as int) == n as int)
                by (nonlinear_arith)
                requires
                    b >= 2,
                    n as int == (b as int) * (n as int / b as int) + (n as int % b as int),
            ;
        }
    }
}

/// Round trip: a literal written out for a magnitude in any supported
/// radix parses back to the value it was written from, whenever the
/// target type admits that value; a magnitude beyond the range comes
/// back as the out-of-range error, and zero written for a type that
/// excludes zero as the out-of-range error at the last position.
pub proof fn lemma_parse_rendered<E>(
    m: nat,
    b: int,
    negative: bool,
    lo: int,
    hi: int,
    can_neg: bool,
    zero_ok: bool,
    e_oor: E,
)
    requires
        b == 2 || b == 8 || b == 10 || b == 16,
        lo <= 0 <= hi,
    ensures
        ({
            let s = rendered_literal(m, b, negative);
            let v: int = if negative {
                -(m as int)
            } else {
                m as int
            };
            let r = parse_spec(s, lo, hi, can_neg, zero_ok, e_oor);
            if negative && !can_neg {
                r == Err::<int, StrToIntError<E>>(
                    StrToIntError::InvalidCharacter { c: '-', position: 0 },
                )
            } else if !(lo <= v <= hi) {
                r matches Err(StrToIntError::Accumulator { source, position }) && source == e_oor
            } else if v == 0 && !zero_ok {
                r == Err::<int, StrToIntError<E>>(
                    StrToIntError::Accumulator {
                        source: e_oor,
                        position: (s.len() - 1) as usize,
                    },
                )
            } else {
                r == Ok::<int, StrToIntError<E>>(v)
            }
        }),
{
    let s = rendered_literal(m, b, negative);
    let head = sign_seq(negative) + literal_prefix(b);
    let repr = base_repr(m, b as nat);
    lemma_base_repr_digits(m, b as nat);
    assert(s =~= head + repr);
    let i0 = sign_len(s);
    let i1 = head.len() as int;
    assert(forall|k: int| 0 <= k < repr.len() ==> s[i1 + k] == repr[k]);
    assert(spec_parse_digit(repr[0], b as u32) is Some);
    assert(repr[0] != '_' && repr[0] != '+' && repr[0] != '-') by {
        assert(char_digit(repr[0]) is Some);
    }
    assert(i0 == if negative {
        1int
    } else {
        0int
    }) by {
        if !negative {
            assert(s[0] == repr[0] || s[0] == '0');
        }
    }
    assert(is_negative_input(s) == negative) by {
        if negative {
            assert(s[0] == '-');
        }
    }
    if !negative || can_neg {
        assert(prefix_base(s, i0) == b && i0 + prefix_len(s, i0) == i1) by {
            if b == 10 {
                assert(i1 == i0);
                assert(s[i0] == repr[0]);
                if i0 + 2 <= s.len() {
                    assert(s[i0 + 1] == repr[1]);
                    if s[i0] == '0' && (s[i0 + 1] == 'x' || s[i0 + 1] == 'o' || s[i0 + 1] == 'b') {
                        assert(spec_parse_digit(s[i0 + 1], 10) is Some);
                        assert(false);
                    }
                }
            } else {
                assert(s[i0] == '0' && i1 == i0 + 2);
                if b == 16 {
                    assert(s[i0 + 1] == 'x');
                } else if b == 8 {
                    assert(s[i0 + 1] == 'o');
                } else {
                    assert(s[i0 + 1] == 'b');
                }
            }
        }
        assert(clean_tail(s, i1, b)) by {
            assert forall|k: int| i1 <= k < s.len() implies (s[k] == '_'
                || #[trigger] spec_parse_digit(s[k], b as u32) is Some) by {
                assert(s[k] == repr[k - i1]);
            }
        }
        assert(tail_has_digit(s, i1)) by {
            assert(s[i1] == repr[0] && s[i1] != '_');
        }
        assert(well_formed_literal(s));
        lemma_tail_value_of_repr(head, m, b as nat, negative);
        assert(literal_value(s) == if negative {
            -(m as int)
        } else {
            m as int
        });
        lemma_parse_well_formed(s, lo, hi, can_neg, zero_ok, e_oor);
    }
}

/// A valid decimal string — digits only, optionally prefixed with `+` —
/// parses to the mathematically equal value whenever the target type
/// admits that value.
pub proof fn lemma_parse_plus_decimal<E>(
    s: Seq<char>,
    lo: int,
    hi: int,
    can_neg: bool,
    zero_ok: bool,
    e_oor: E,
)
    requires
        lo <= 0 <= hi,
        s.len() > 0,
        ({
            let i0: int = if s[0] == '+' {
                1
            } else {
                0
            };
            &&& i0 < s.len()
            &&& forall|k: int| i0 <= k < s.len() ==> #[trigger] spec_parse_digit(s[k], 10) is Some
        }),
    ensures
        ({
            let i0: int = if s[0] == '+' {
                1
            } else {
                0
            };
            let v = tail_value_from(s, i0, 10, false, 0);
            lo <= v <= hi && (zero_ok || v != 0) ==> parse_spec(s, lo, hi, can_neg, zero_ok, e_oor)
                == Ok::<int, StrToIntError<E>>(v)
        }),
{
    let i0: int = if s[0] == '+' {
        1
    } else {
        0
    };
    assert(sign_len(s) == i0 && !is_negative_input(s)) by {
        if s[0] != '+' {
            assert(spec_parse_digit(s[0], 10) is Some);
        }
    }
    assert(prefix_base(s, i0) == 10) by {
        if i0 + 2 <= s.len() && s[i0] == '0' && (s[i0 + 1] == 'x' || s[i0 + 1] == 'o' || s[i0 + 1]
            == 'b') {
            assert(spec_parse_digit(s[i0 + 1], 10) is Some);
            assert(false);
        }
    }
    assert(well_formed_literal(s)) by {
        assert(spec_parse_digit(s[i0], 10) is Some);
        assert(s[i0] != '_');
        assert(tail_has_digit(s, i0));
    }
    lemma_parse_well_formed(s, lo, hi, can_neg, zero_ok, e_oor);
}

/// Parsing is a pure function of the input: two results that both meet
/// the parse contract on the same input are equal.
pub proof fn lemma_parse_deterministic<Int, A: Accumulator<Int>>(
    s: Seq<char>,
    r1: Result<Int, StrToIntError<A::Err>>,
    r2: Result<Int, StrToIntError<A::Err>>,
)
    requires
        parse_post::<Int, A>(s, r1),
        parse_post::<Int, A>(s, r2),
    ensures
        r1 == r2,
{
    if r1 is Ok && r2 is Ok {
        A::lemma_int_value_injective(r1->Ok_0, r2->Ok_0);
    }
}

/// Boundary behaviour: the largest and (for types with negative values)
/// smallest representable values parse successfully from their decimal
/// and hexadecimal forms, and one unit beyond each fails with the
/// out-of-range error.
pub proof fn lemma_parse_boundaries<E>(b: int, lo: int, hi: int, can_neg: bool, e_oor: E)
    requires
        b == 10 || b == 16,
        lo <= 0 < hi,
    ensures
        parse_spec(rendered_literal(hi as nat, b, false), lo, hi, can_neg, true, e_oor) == Ok::<
            int,
            StrToIntError<E>,
        >(hi),
        parse_spec(rendered_literal((hi + 1) as nat, b, false), lo, hi, can_neg, true, e_oor)
            matches Err(StrToIntError::Accumulator { source, position }) && source == e_oor,
        lo < 0 && can_neg ==> parse_spec(
            rendered_literal((-lo) as nat, b, true),
            lo,
            hi,
            can_neg,
            true,
            e_oor,
        ) == Ok::<int, StrToIntError<E>>(lo),
        can_neg ==> (parse_spec(rendered_literal((1 - lo) as nat, b, true), lo, hi, can_neg, true, e_oor)
            matches Err(StrToIntError::Accumulator { source, position }) && source == e_oor),
{
    lemma_parse_rendered(hi as nat, b, false, lo, hi, can_neg, true, e_oor);
    lemma_parse_rendered((hi + 1) as nat, b, false, lo, hi, can_neg, true, e_oor);
    if can_neg {
        lemma_parse_rendered((-lo) as nat, b, true, lo, hi, can_neg, true, e_oor);
        lemma_parse_rendered((1 - lo) as nat, b, true, lo, hi, can_neg, true, e_oor);
    }
}

/// A separator as the very first character of an unprefixed decimal
/// literal is an invalid character at position 0.
pub proof fn lemma_leading_separator_rejected<E>(
    s: Seq<char>,
    lo: int,
    hi: int,
    can_neg: bool,
    zero_ok: bool,
    e_oor: E,
)
    requires
        s.len() > 0,
        s[0] == '_',
    ensures
        parse_spec(s, lo, hi, can_neg, zero_ok, e_oor) == Err::<int, StrToIntError<E>>(
            StrToIntError::InvalidCharacter { c: '_', position: 0 },
        ),
{
    assert(sign_len(s) == 0 && !is_negative_input(s));
    assert(prefix_base(s, 0) == 10);
    assert(scan_digits(s, 0, 10, false, lo, hi, e_oor, 0, false) == Err::<
        (int, bool),
        StrToIntError<E>,
    >(StrToIntError::InvalidCharacter { c: '_', position: 0 }));
}

/// A separator immediately after a base prefix is allowed: such a
/// literal parses to the value of its digits whenever the target type
/// admits it.
pub proof fn lemma_separator_after_prefix<E>(
    s: Seq<char>,
    lo: int,
    hi: int,
    can_neg: bool,
    zero_ok: bool,
    e_oor: E,
)
    requires
        lo <= 0 <= hi,
        well_formed_literal(s),
        prefix_base(s, sign_len(s)) != 10,
        sign_len(s) + 2 < s.len() && s[sign_len(s) + 2] == '_',
        !(is_negative_input(s) && !can_neg),
    ensures
        ({
            let v = literal_value(s);
            lo <= v <= hi && (zero_ok || v != 0) ==> parse_spec(s, lo, hi, can_neg, zero_ok, e_oor)
                == Ok::<int, StrToIntError<E>>(v)
        }),
{
    lemma_parse_well_formed(s, lo, hi, can_neg, zero_ok, e_oor);
}

/// An uppercase base prefix is never recognized: after the optional
/// sign, `0X`, `0O`, and `0B` fail as an invalid character at the
/// position of the letter.
pub proof fn lemma_uppercase_prefix_rejected<E>(
    s: Seq<char>,
    lo: int,
    hi: int,
    can_neg: bool,
    zero_ok: bool,
    e_oor: E,
)
    requires
        lo <= 0 <= hi,
        !(is_negative_input(s) && !can_neg),
        sign_len(s) + 2 <= s.len(),
        s[sign_len(s)] == '0',
        s[sign_len(s) + 1] == 'X' || s[sign_len(s) + 1] == 'O' || s[sign_len(s) + 1] == 'B',
    ensures
        parse_spec(s, lo, hi, can_neg, zero_ok, e_oor) == Err::<int, StrToIntError<E>>(
            StrToIntError::InvalidCharacter {
                c: s[sign_len(s) + 1],
                position: (sign_len(s) + 1) as usize,
            },
        ),
{
    let i0 = sign_len(s);
    assert(prefix_base(s, i0) == 10);
    assert(spec_parse_digit(s[i0], 10) == Some(0u32));
    assert(spec_parse_digit(s[i0 + 1], 10) is None);
    assert(scan_digits(s, i0 + 1, 10, is_negative_input(s), lo, hi, e_oor, 0, true) == Err::<
        (int, bool),
        StrToIntError<E>,
    >(StrToIntError::InvalidCharacter { c: s[i0 + 1], position: (i0 + 1) as usize }));
    assert(scan_digits(s, i0, 10, is_negative_input(s), lo, hi, e_oor, 0, false) == Err::<
        (int, bool),
        StrToIntError<E>,
    >(StrToIntError::InvalidCharacter { c: s[i0 + 1], position: (i0 + 1) as usize }));
}

/// A sign following a base prefix is an invalid character at the sign's
/// position: the digit loop does not look for signs.
pub proof fn lemma_sign_after_prefix_rejected<E>(
    s: Seq<char>,
    lo: int,
    hi: int,
    can_neg: bool,
    zero_ok: bool,
    e_oor: E,
)
    requires
        !(is_negative_input(s) && !can_neg),
        prefix_base(s, sign_len(s)) != 10,
        sign_len(s) + 2 < s.len(),
        s[sign_len(s) + 2] == '+' || s[sign_len(s) + 2] == '-',
    ensures
        parse_spec(s, lo, hi, can_neg, zero_ok, e_oor) == Err::<int, StrToIntError<E>>(
            StrToIntError::InvalidCharacter {
                c: s[sign_len(s) + 2],
                position: (sign_len(s) + 2) as usize,
            },
        ),
{
    let i0 = sign_len(s);
    let b = prefix_base(s, i0);
    let i1 = i0 + 2;
    assert(spec_parse_digit(s[i1], b as u32) is None);
    assert(scan_digits(s, i1, b, is_negative_input(s), lo, hi, e_oor, 0, false) == Err::<
        (int, bool),
        StrToIntError<E>,
    >(StrToIntError::InvalidCharacter { c: s[i1], position: i1 as usize }));
}

/// A non-zero target type behaves exactly like its plain counterpart,
/// except that a literal denoting zero fails with the out-of-range error
/// at the last position instead of succeeding.
pub proof fn lemma_nonzero_like_plain<E>(
    s: Seq<char>,
    lo: int,
    hi: int,
    can_neg: bool,
    e_oor: E,
)
    ensures
        ({
            let plain = parse_spec(s, lo, hi, can_neg, true, e_oor);
            let nonzero = parse_spec(s, lo, hi, can_neg, false, e_oor);
            match plain {
                Ok(v) => if v != 0 {
                    nonzero == Ok::<int, StrToIntError<E>>(v)
                } else {
                    nonzero == Err::<int, StrToIntError<E>>(
                        StrToIntError::Accumulator {
                            source: e_oor,
                            position: (s.len() - 1) as usize,
                        },
                    )
                },
                Err(e) => nonzero == Err::<int, StrToIntError<E>>(e),
            }
        }),
{
}

/// Whether a character is ASCII, and so a single byte of the input
/// string.
pub open spec fn ascii_char(c: char) -> bool {
    (c as u32) < 128
}

/// Whether every character of positions `i` up to `p` is ASCII.
pub open spec fn ascii_between(s: Seq<char>, i: int, p: int) -> bool {
    forall|k: int| i <= k < p ==> ascii_char(#[trigger] s[k])
}

proof fn lemma_scan_positions<E>(
    s: Seq<char>,
    i: int,
    base: int,
    negative: bool,
    lo: int,
    hi: int,
    e_oor: E,
    value: int,
    any: bool,
)
    requires
        0 <= i <= s.len(),
        s.len() <= usize::MAX,
    ensures
        ({
            let r = scan_digits(s, i, base, negative, lo, hi, e_oor, value, any);
            match r {
                Ok(_) => ascii_between(s, i, s.len() as int),
                Err(StrToIntError::NoDigits) => false,
                Err(StrToIntError::InvalidCharacter { c, position }) => {
                    &&& i <= position < s.len()
                    &&& s[position as int] == c
                    &&& ascii_between(s, i, position as int)
                },
                Err(StrToIntError::Accumulator { source, position }) => {
                    &&& i <= position < s.len()
                    &&& source == e_oor
                    &&& ascii_between(s, i, position as int)
                },
            }
        }),
    decreases s.len() - i,
{
    if i >= s.len() {
    } else if s[i] == '_' {
        if !(!any && base == 10) {
            lemma_scan_positions(s, i + 1, base, negative, lo, hi, e_oor, value, any);
            assert(ascii_char(s[i]));
        }
    } else {
        match spec_parse_digit(s[i], base as u32) {
            Some(d) => {
                assert(ascii_char(s[i])) by {
                    assert(char_digit(s[i]) is Some);
                }
                let proposed = if negative {
                    value * base - d
                } else {
                    value * base + d
                };
                if !(proposed < lo || proposed > hi) {
                    lemma_scan_positions(s, i + 1, base, negative, lo, hi, e_oor, proposed, true);
                }
            },
            None => {},
        }
    }
}

/// Positions in errors are valid character indexes of the input, the
/// invalid-character error carries the character standing at its
/// position, and every character before a reported position is ASCII: a
/// reported position is therefore also the byte offset of that character
/// in the input.
pub proof fn lemma_error_positions_are_byte_offsets<E>(
    s: Seq<char>,
    lo: int,
    hi: int,
    can_neg: bool,
    zero_ok: bool,
    e_oor: E,
)
    requires
        lo <= 0 <= hi,
        s.len() <= usize::MAX,
    ensures
        ({
            match parse_spec(s, lo, hi, can_neg, zero_ok, e_oor) {
                Ok(_) => true,
                Err(StrToIntError::NoDigits) => true,
                Err(StrToIntError::InvalidCharacter { c, position }) => {
                    &&& position < s.len()
                    &&& s[position as int] == c
                    &&& ascii_between(s, 0, position as int)
                },
                Err(StrToIntError::Accumulator { source, position }) => {
                    &&& position < s.len()
                    &&& ascii_between(s, 0, position as int)
                },
            }
        }),
{
    let neg = is_negative_input(s);
    if neg && !can_neg {
        assert(s[0] == '-');
    } else {
        let i0 = sign_len(s);
        let b = prefix_base(s, i0);
        let i1 = i0 + prefix_len(s, i0);
        assert(ascii_between(s, 0, i1)) by {
            if i0 == 1 {
                assert(s[0] == '+' || s[0] == '-');
                assert(ascii_char(s[0]));
            }
            if i1 == i0 + 2 {
                assert(s[i0] == '0');
                assert(s[i0 + 1] == 'x' || s[i0 + 1] == 'o' || s[i0 + 1] == 'b');
                assert(ascii_char(s[i0]) && ascii_char(s[i0 + 1]));
            }
        }
        lemma_scan_positions(s, i1, b, neg, lo, hi, e_oor, 0, false);
        match scan_digits(s, i1, b, neg, lo, hi, e_oor, 0, false) {
            Ok((value, any)) => {
                if any {
                    assert(i1 < s.len()) by {
                        if i1 >= s.len() {
                            assert(scan_digits(s, i1, b, neg, lo, hi, e_oor, 0, false) == Ok::<
                                (int, bool),
                                StrToIntError<E>,
                            >((0, false)));
                        }
                    }
                }
            },
            Err(_) => {},
        }
    }
}

/// Digit characters above the `0`-`9` set are read case-insensitively:
/// a lowercase letter and its uppercase counterpart have the same digit
/// value in every radix.
pub proof fn lemma_digits_case_insensitive(lower: char, upper: char, base: u32)
    requires
        'a' as u32 <= lower as u32 <= 'z' as u32,
        lower as u32 == upper as u32 + 32,
    ensures
        spec_parse_digit(lower, base) == spec_parse_digit(upper, base),
{
}

/// A type that cannot hold negative values rejects any leading minus
/// sign as an invalid character at position 0.
pub proof fn lemma_minus_rejected_without_negatives<E>(
    s: Seq<char>,
    lo: int,
    hi: int,
    zero_ok: bool,
    e_oor: E,
)
    requires
        s.len() > 0,
        s[0] == '-',
    ensures
        parse_spec(s, lo, hi, false, zero_ok, e_oor) == Err::<int, StrToIntError<E>>(
            StrToIntError::InvalidCharacter { c: '-', position: 0 },
        ),
{
}

} // verus!
