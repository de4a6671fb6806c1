//! Laws on numbers as text.
use vstd::prelude::*;

use crate::numbers::{
    all_digits, decimal, decimal_reads_back, digits_value, is_digit, padded, parsed_number,
    unsigned_part,
};

verus! {

/// A number is written with its digits from the highest to the lowest, without
/// zeros in front.
pub proof fn numbers_are_written_digit_by_digit(n: nat, d: nat)
    requires
        d < 10,
    ensures
        decimal(d).len() == 1,
        decimal(d)[0] as int == '0' as int + d,
        n > 0 ==> decimal(10 * n + d) == decimal(n) + decimal(d),
        n > 0 ==> decimal(n)[0] != '0',
    decreases n,
{
    if n > 0 {
        let m = 10 * n + d;
        assert(m / 10 == n && m % 10 == d);
        assert(decimal(n).push(decimal(d)[0]) =~= decimal(n) + decimal(d));
        decimal_reads_back(n);
        if n >= 10 {
            numbers_are_written_digit_by_digit(n / 10, n % 10);
            decimal_reads_back(n / 10);
            assert(decimal(n)[0] == decimal(n / 10)[0]);
        }
    }
}

/// Different numbers are written differently.
pub proof fn numbers_are_told_apart(a: nat, b: nat)
    ensures
        (decimal(a) == decimal(b)) == (a == b),
{
    decimal_reads_back(a);
    decimal_reads_back(b);
}

/// A further digit behind others gives ten times their number and the digit.
pub proof fn digits_are_read_in_tens(s: Seq<char>, c: char)
    requires
        '0' <= c <= '9',
    ensures
        digits_value(Seq::empty()) == 0,
        digits_value(s.push(c)) == 10 * digits_value(s) + (c as int - '0' as int),
{
    assert(s.push(c).drop_last() =~= s);
}

/// A text is a number where it is one digit or more, with or without a plus
/// sign in front, and the number is not too large; nothing else is one.
pub proof fn only_digits_are_a_number(s: Seq<char>, max: nat)
    ensures
        s.len() > 0 && (forall|i: int| 0 <= i < s.len() ==> '0' <= #[trigger] s[i] <= '9')
            && digits_value(s) <= max ==> parsed_number(s, max) == Some(digits_value(s))
            && parsed_number(seq!['+'] + s, max) == Some(digits_value(s)),
        s.len() > 0 && (forall|i: int| 0 <= i < s.len() ==> '0' <= #[trigger] s[i] <= '9')
            && digits_value(s) > max ==> parsed_number(s, max) is None && parsed_number(
            seq!['+'] + s,
            max,
        ) is None,
        s.len() == 0 ==> parsed_number(s, max) is None && parsed_number(seq!['+'] + s, max) is None,
        s.len() > 0 && s[0] != '+' && (exists|i: int|
            0 <= i < s.len() && !('0' <= #[trigger] s[i] <= '9')) ==> parsed_number(s, max) is None
            && parsed_number(seq!['+'] + s, max) is None,
{
    let p = seq!['+'] + s;
    assert(p.drop_first() =~= s);
    if s.len() == 0 {
        assert(p[0] == '+');
        assert(!is_digit(p[0]));
        assert(unsigned_part(p) == p);
    } else {
        assert(unsigned_part(p) == s);
        if s[0] == '+' {
            assert(!('0' <= s[0] <= '9'));
        } else {
            assert(unsigned_part(s) == s);
        }
        if exists|i: int| 0 <= i < s.len() && !('0' <= #[trigger] s[i] <= '9') {
            let i = choose|i: int| 0 <= i < s.len() && !('0' <= #[trigger] s[i] <= '9');
            assert(!is_digit(s[i]));
            assert(!all_digits(s));
        } else {
            assert forall|i: int| 0 <= i < s.len() implies is_digit(s[i]) by {
                assert('0' <= s[i] <= '9');
            }
        }
    }
}

/// A padded number has zeros in front up to the width, and is longer only
/// where the number itself is.
pub proof fn padding_is_zeros(n: nat, width: nat, i: int)
    ensures
        decimal(n).len() >= width ==> padded(n, width) == decimal(n),
        decimal(n).len() < width ==> padded(n, width).len() == width,
        decimal(n).len() < width && 0 <= i < width - decimal(n).len() ==> padded(n, width)[i]
            == '0',
        padded(n, width).skip(padded(n, width).len() - decimal(n).len()) == decimal(n),
{
    let p = padded(n, width);
    assert(p.skip(p.len() - decimal(n).len()) =~= decimal(n));
}

} // verus!
