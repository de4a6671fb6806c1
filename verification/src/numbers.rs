//! Decimal numbers as text.
use vstd::prelude::*;

use crate::text::chars_of;

verus! {

/// The character of a digit.
pub open spec fn digit_char(d: nat) -> char {
    (48 + d) as u8 as char
}

/// Whether `c` is one of `0` to `9`.
pub open spec fn is_digit(c: char) -> bool {
    '0' <= c <= '9'
}

/// The value of a digit.
pub open spec fn digit_value(c: char) -> nat {
    (c as u32 - 48) as nat
}

/// A number in decimal, without leading zeros.
pub open spec fn decimal(n: nat) -> Seq<char>
    decreases n,
{
    if n < 10 {
        seq![digit_char(n)]
    } else {
        decimal(n / 10).push(digit_char(n % 10))
    }
}

/// A number in decimal, with zeros in front up to `width` characters.
pub open spec fn padded(n: nat, width: nat) -> Seq<char> {
    let d = decimal(n);
    if d.len() < width {
        Seq::new((width - d.len()) as nat, |i: int| '0') + d
    } else {
        d
    }
}

/// Whether every character of `s` is a digit.
pub open spec fn all_digits(s: Seq<char>) -> bool {
    forall|i: int| 0 <= i < s.len() ==> is_digit(s[i])
}

/// The number that a sequence of digits stands for.
pub open spec fn digits_value(s: Seq<char>) -> nat
    decreases s.len(),
{
    if s.len() == 0 {
        0
    } else {
        digits_value(s.drop_last()) * 10 + digit_value(s.last())
    }
}

/// The digits of a number behind an optional plus sign.
pub open spec fn unsigned_part(s: Seq<char>) -> Seq<char> {
    if s.len() > 1 && s[0] == '+' {
        s.drop_first()
    } else {
        s
    }
}

/// The number that `s` is written as, if it is one of at most `max`: an
/// optional plus sign and at least one digit.
pub open spec fn parsed_number(s: Seq<char>, max: nat) -> Option<nat> {
    let d = unsigned_part(s);
    if d.len() > 0 && all_digits(d) && digits_value(d) <= max {
        Some(digits_value(d))
    } else {
        None
    }
}

/// The character of a digit.
pub fn digit_of(d: u64) -> (c: char)
    requires
        d < 10,
    ensures
        c == digit_char(d as nat),
{
    (48 + d as u8) as char
}

/// Adds a number in decimal at the end of a string.
pub fn push_decimal(s: &mut String, n: u64)
    ensures
        final(s)@ == old(s)@ + decimal(n as nat),
    decreases n,
{
    if n < 10 {
        s.push(digit_of(n));
        assert(s@ =~= old(s)@ + decimal(n as nat));
    } else {
        push_decimal(s, n / 10);
        s.push(digit_of(n % 10));
        assert(s@ =~= old(s)@ + decimal(n as nat));
    }
}

/// A number in decimal.
pub fn decimal_text(n: u64) -> (s: String)
    ensures
        s@ == decimal(n as nat),
{
    let mut s = String::new();
    push_decimal(&mut s, n);
    assert(Seq::<char>::empty() + decimal(n as nat) =~= decimal(n as nat));
    s
}

/// How many digits a number has.
pub fn decimal_len(n: u64) -> (k: u64)
    ensures
        k == decimal(n as nat).len(),
        k == 1 || k <= n,
    decreases n,
{
    if n < 10 {
        1
    } else {
        decimal_len(n / 10) + 1
    }
}

/// Adds a number in decimal, with zeros in front up to `width` characters.
pub fn push_padded(s: &mut String, n: u64, width: u64)
    ensures
        final(s)@ == old(s)@ + padded(n as nat, width as nat),
{
    let k: u64 = decimal_len(n);
    let mut i: u64 = k;
    let ghost zeros = Seq::new(
        if k < width {
            (width - k) as nat
        } else {
            0
        },
        |i: int| '0',
    );
    assert(zeros.take(0) =~= Seq::empty());
    while i < width
        invariant
            k <= i,
            k < width ==> i <= width,
            k >= width ==> i == k,
            zeros.len() == (if k < width {
                (width - k) as nat
            } else {
                0
            }),
            forall|j: int| 0 <= j < zeros.len() ==> zeros[j] == '0',
            s@ == old(s)@ + zeros.take(i - k),
        decreases width - i,
    {
        s.push('0');
        assert(s@ =~= old(s)@ + zeros.take(i + 1 - k));
        i = i + 1;
    }
    assert(zeros.take(i - k) =~= zeros);
    push_decimal(s, n);
    assert(s@ =~= old(s)@ + padded(n as nat, width as nat));
}

/// The number that a string is written as, if it is one of at most `max`.
pub fn parse_number(s: &str, max: u64) -> (r: Option<u64>)
    ensures
        match r {
            Some(n) => parsed_number(s@, max as nat) == Some(n as nat),
            None => parsed_number(s@, max as nat) is None,
        },
{
    let sc: Vec<char> = chars_of(s);
    let n: usize = sc.len();
    let from: usize = if n > 1 && sc[0] == '+' {
        1
    } else {
        0
    };
    let ghost d = unsigned_part(s@);
    assert(d =~= s@.skip(from as int));
    if from == n {
        return None;
    }
    let mut value: u64 = 0;
    let mut i: usize = from;
    assert(d.take(0) =~= Seq::empty());
    while i < n
        invariant
            n == sc@.len(),
            sc@ == s@,
            from <= i <= n,
            d == unsigned_part(s@),
            d == s@.skip(from as int),
            all_digits(d.take(i - from)),
            value == digits_value(d.take(i - from)),
            value <= max,
        decreases n - i,
    {
        let c: char = sc[i];
        let ghost next = d.take(i + 1 - from);
        proof {
            assert(next.drop_last() =~= d.take(i - from));
            assert(next.last() == c);
            assert(d[i - from] == c);
        }
        if !('0' <= c && c <= '9') {
            assert(!all_digits(d));
            return None;
        }
        let v: u64 = (c as u32 - 48) as u64;
        if value > (u64::MAX - v) / 10 || value * 10 + v > max {
            proof {
                assert(digits_value(next) > max);
                if all_digits(d) {
                    digits_value_grows(d, i + 1 - from);
                }
            }
            return None;
        }
        value = value * 10 + v;
        assert(all_digits(next)) by {
            assert forall|j: int| 0 <= j < next.len() implies is_digit(next[j]) by {
                if j < i - from {
                    assert(next[j] == d.take(i - from)[j]);
                }
            }
        }
        i = i + 1;
    }
    assert(d.take(n - from) =~= d);
    Some(value)
}

/// More digits never make a smaller number.
pub proof fn digits_value_grows(s: Seq<char>, k: int)
    requires
        0 <= k <= s.len(),
    ensures
        digits_value(s.take(k)) <= digits_value(s),
    decreases s.len() - k,
{
    if k == s.len() {
        assert(s.take(k) =~= s);
    } else {
        assert(s.take(k + 1).drop_last() =~= s.take(k));
        digits_value_grows(s, k + 1);
    }
}

/// Decimal text is made of digits, has at least one, and reads back as the
/// number that it was written from.
pub proof fn decimal_reads_back(n: nat)
    ensures
        decimal(n).len() >= 1,
        all_digits(decimal(n)),
        digits_value(decimal(n)) == n,
        forall|max: nat| n <= max ==> #[trigger] parsed_number(decimal(n), max) == Some(n),
    decreases n,
{
    let d = decimal(n);
    if n < 10 {
        assert(d.drop_last() =~= Seq::empty());
        assert(digits_value(d.drop_last()) == 0);
        assert(d.last() == digit_char(n));
    } else {
        decimal_reads_back(n / 10);
        assert(d.drop_last() =~= decimal(n / 10));
        assert forall|i: int| 0 <= i < d.len() implies is_digit(d[i]) by {
            if i < d.len() - 1 {
                assert(d[i] == decimal(n / 10)[i]);
            }
        }
    }
    assert(is_digit(d[0]));
    assert(unsigned_part(d) == d);
}

} // verus!
