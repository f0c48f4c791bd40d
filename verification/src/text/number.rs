//! Numbers in decimal notation.

use crate::text;
use vstd::prelude::*;

verus! {

/// The digit `d`, for `d` below ten.
pub open spec fn digit_char(d: nat) -> char {
    ((48 + d) as u8) as char
}

/// `n` in decimal notation, without leading zeros.
pub open spec fn decimal(n: nat) -> Seq<char>
    decreases n,
{
    if n < 10 {
        seq![digit_char(n)]
    } else {
        decimal(n / 10).push(digit_char(n % 10))
    }
}

/// What a digit stands for.
pub open spec fn digit_value(c: char) -> nat {
    (c as nat - 48) as nat
}

/// All characters of `s` are decimal digits.
pub open spec fn all_digits(s: Seq<char>) -> bool {
    forall|i: int| 0 <= i < s.len() ==> text::is_digit(#[trigger] s[i])
}

/// The number that a row of digits stands for.
pub open spec fn value(s: Seq<char>) -> nat
    decreases s.len(),
{
    if s.len() == 0 {
        0
    } else {
        value(s.drop_last()) * 10 + digit_value(s.last())
    }
}

/// The digits of a number: `s` without one leading `+`.
pub open spec fn unsigned_digits(s: Seq<char>) -> Seq<char> {
    if s.len() > 0 && s[0] == '+' {
        s.drop_first()
    } else {
        s
    }
}

/// The unsigned number that `s` writes: digits, at least one, behind an
/// optional `+`, and no more than `max`.
pub open spec fn parsed_unsigned(s: Seq<char>, max: nat) -> Option<nat> {
    let digits = unsigned_digits(s);
    if digits.len() > 0 && all_digits(digits) && value(digits) <= max {
        Some(value(digits))
    } else {
        None
    }
}

/// A decimal notation has at least one character, and only digits.
pub proof fn decimal_is_digits(n: nat)
    ensures
        decimal(n).len() > 0,
        all_digits(decimal(n)),
    decreases n,
{
    if n >= 10 {
        decimal_is_digits(n / 10);
    }
}

/// The digits of `n` stand for `n`.
pub proof fn decimal_value(n: nat)
    ensures
        value(decimal(n)) == n,
    decreases n,
{
    if n >= 10 {
        decimal_value(n / 10);
        assert(decimal(n).drop_last() =~= decimal(n / 10));
    } else {
        assert(decimal(n).drop_last() =~= Seq::<char>::empty());
        assert(value(Seq::<char>::empty()) == 0);
    }
}

/// Reading a number back gives the number that was written.
pub proof fn decimal_round_trip(n: nat, max: nat)
    requires
        n <= max,
    ensures
        parsed_unsigned(decimal(n), max) == Some(n),
{
    decimal_is_digits(n);
    decimal_value(n);
    assert(text::is_digit(decimal(n)[0]));
}

/// Two numbers with the same notation are the same.
pub proof fn decimal_injective(a: nat, b: nat)
    requires
        decimal(a) == decimal(b),
    ensures
        a == b,
{
    decimal_value(a);
    decimal_value(b);
}

/// A row of digits stands for no less than its front part does.
proof fn value_grows(s: Seq<char>, n: int)
    requires
        0 <= n <= s.len(),
        all_digits(s),
    ensures
        value(s.take(n)) <= value(s),
    decreases s.len(),
{
    if n < s.len() {
        assert(s.drop_last().take(n) =~= s.take(n));
        assert forall|i: int| 0 <= i < s.drop_last().len() implies text::is_digit(
            #[trigger] s.drop_last()[i],
        ) by {
            assert(text::is_digit(s[i]));
        }
        value_grows(s.drop_last(), n);
    } else {
        assert(s.take(n) =~= s);
    }
}

/// `n` in decimal notation.
pub fn to_decimal(n: u64) -> (out: String)
    ensures
        out@ == decimal(n as nat),
    decreases n,
{
    let d: u8 = (n % 10) as u8;
    let c: char = (48 + d) as char;
    if n < 10 {
        let mut out = String::new();
        out.push(c);
        assert(out@ =~= seq![c]);
        out
    } else {
        let mut out = to_decimal(n / 10);
        out.push(c);
        out
    }
}

/// Reads an unsigned number no larger than `max`.
pub fn parse_unsigned(s: &str, max: u64) -> (r: Option<u64>)
    ensures
        parsed_unsigned(s@, max as nat) == (match r {
            Some(n) => Some(n as nat),
            None => None,
        }),
{
    let chars = text::chars_of(s);
    let from: usize = if chars.len() > 0 && chars[0] == '+' {
        1
    } else {
        0
    };
    let digits = vstd::slice::slice_subrange(chars.as_slice(), from, chars.len());
    assert(digits@ =~= unsigned_digits(s@));
    parse_digits(digits, max)
}

/// Reads a row of digits that stands for no more than `max`.
pub fn parse_digits(digits: &[char], max: u64) -> (r: Option<u64>)
    ensures
        r == (if digits@.len() > 0 && all_digits(digits@) && value(digits@) <= max {
            Some(value(digits@) as u64)
        } else {
            None
        }),
{
    if digits.len() == 0 {
        return None;
    }
    let mut n: u64 = 0;
    let mut i: usize = 0;
    while i < digits.len()
        invariant
            i <= digits@.len(),
            all_digits(digits@.take(i as int)),
            n == value(digits@.take(i as int)),
            n <= max,
        decreases digits@.len() - i,
    {
        let c = digits[i];
        if !text::digit(c) {
            assert(!text::is_digit(digits@[i as int]));
            return None;
        }
        let d: u64 = c as u64 - 48;
        assert(digits@.take(i + 1).drop_last() =~= digits@.take(i as int));
        assert(value(digits@.take(i + 1)) == n * 10 + d);
        if n > max / 10 || d > max - n * 10 {
            proof {
                if all_digits(digits@) {
                    value_grows(digits@, i + 1);
                }
            }
            return None;
        }
        n = n * 10 + d;
        i = i + 1;
        assert forall|j: int| 0 <= j < digits@.take(i as int).len() implies text::is_digit(
            #[trigger] digits@.take(i as int)[j],
        ) by {
            if j < i - 1 {
                assert(digits@.take(i as int)[j] == digits@.take(i - 1)[j]);
            }
        }
    }
    assert(digits@.take(digits@.len() as int) =~= digits@);
    Some(n)
}

/// A digit that is written behind a number makes it ten times as large and
/// adds what it stands for, in writing as in reading; and the digits are `0`
/// to `9`, each one more than the one before.
pub proof fn digits_count_by_their_place(n: nat, s: Seq<char>, d: nat)
    requires
        d < 10,
    ensures
        n > 0 ==> decimal(n * 10 + d) == decimal(n) + decimal(d),
        decimal(d).len() == 1,
        decimal(d)[0] as int == '0' as int + d,
        n > 0 ==> decimal(n)[0] != '0',
        value(s + decimal(d)) == value(s) * 10 + d,
        value(Seq::empty()) == 0,
    decreases n,
{
    assert((n * 10 + d) / 10 == n && (n * 10 + d) % 10 == d);
    if n > 0 {
        assert(decimal(n * 10 + d) =~= decimal(n) + decimal(d));
        if n >= 10 {
            digits_count_by_their_place(n / 10, s, n % 10);
            decimal_is_digits(n / 10);
            assert(decimal(n)[0] == decimal(n / 10)[0]);
        }
    }
    let t = s + decimal(d);
    assert(t.drop_last() =~= s);
    assert(t.last() == decimal(d)[0]);
}

/// A number is read exactly where it is one or more digits, behind one `+` or
/// none, that stand for no more than the largest value allowed. Leading zeros
/// change nothing.
pub proof fn numbers_are_digits_within_a_bound(s: Seq<char>, n: nat, max: nat)
    ensures
        n <= max ==> parsed_unsigned(seq!['+'] + decimal(n), max) == Some(n),
        n > max ==> parsed_unsigned(decimal(n), max) is None,
        parsed_unsigned(Seq::empty(), max) is None,
        s.len() > 0 && s[0] != '+' && !text::is_digit(s[0]) ==> parsed_unsigned(s, max) is None,
        s.len() > 0 && !text::is_digit(s.last()) ==> parsed_unsigned(s, max) is None,
        s.len() > 0 && all_digits(s) ==> parsed_unsigned(seq!['0'] + s, max) == parsed_unsigned(
            s,
            max,
        ),
{
    decimal_is_digits(n);
    decimal_value(n);
    let plus = seq!['+'] + decimal(n);
    assert(plus.drop_first() =~= decimal(n));
    assert(text::is_digit(decimal(n)[0]));
    if s.len() > 0 && !text::is_digit(s.last()) {
        let digits = unsigned_digits(s);
        if digits.len() > 0 {
            assert(digits.last() == s.last());
        }
    }
    if s.len() > 0 && all_digits(s) {
        assert(text::is_digit(s[0]));
        leading_zeros_count_nothing(s);
        assert forall|i: int| 0 <= i < (seq!['0'] + s).len() implies text::is_digit(
            #[trigger] (seq!['0'] + s)[i],
        ) by {
            if i > 0 {
                assert(text::is_digit(s[i - 1]));
            }
        }
    }
}

proof fn leading_zeros_count_nothing(s: Seq<char>)
    ensures
        value(seq!['0'] + s) == value(s),
    decreases s.len(),
{
    let t = seq!['0'] + s;
    if s.len() > 0 {
        assert(t.drop_last() =~= seq!['0'] + s.drop_last());
        leading_zeros_count_nothing(s.drop_last());
    } else {
        assert(t.drop_last() =~= Seq::<char>::empty());
        assert(value(Seq::<char>::empty()) == 0);
    }
}

} // verus!
