//! Decimal numerals of integers.

use vstd::prelude::*;

verus! {

/// The character of a decimal digit.
pub open spec fn digit(d: int) -> char {
    (48 + d) as char
}

/// Whether a character is a decimal digit.
pub open spec fn is_digit(c: char) -> bool {
    '0' <= c <= '9'
}

/// The number that a decimal digit stands for.
pub open spec fn digit_value(c: char) -> int {
    c as int - 48
}

/// The decimal numeral of a natural number, without leading zeros.
pub open spec fn decimal(n: nat) -> Seq<char>
    decreases n,
{
    if n < 10 {
        seq![digit(n as int)]
    } else {
        decimal(n / 10).push(digit((n % 10) as int))
    }
}

/// The decimal numeral of an integer, with a minus sign where it is negative.
pub open spec fn signed_decimal(n: int) -> Seq<char> {
    if n < 0 {
        seq!['-'] + decimal((-n) as nat)
    } else {
        decimal(n as nat)
    }
}

/// The numeral of a number below a hundred, in two digits.
pub open spec fn two_digits(n: int) -> Seq<char> {
    seq![digit(n / 10), digit(n % 10)]
}

/// The numeral of a number below ten thousand, in four digits.
pub open spec fn four_digits(n: int) -> Seq<char> {
    seq![digit(n / 1000), digit(n / 100 % 10), digit(n / 10 % 10), digit(n % 10)]
}

/// The number that a text of decimal digits stands for.
pub open spec fn digits_value(s: Seq<char>) -> int
    decreases s.len(),
{
    if s.len() == 0 {
        0
    } else {
        digits_value(s.drop_last()) * 10 + digit_value(s.last())
    }
}

/// Every character of the text is a decimal digit.
pub open spec fn all_digits(s: Seq<char>) -> bool {
    forall|i: int| 0 <= i < s.len() ==> is_digit(#[trigger] s[i])
}

/// A decimal numeral is made of digits, at least one of them, and stands for
/// the number that it was made of.
pub proof fn decimal_reads_back(n: nat)
    ensures
        decimal(n).len() > 0,
        all_digits(decimal(n)),
        digits_value(decimal(n)) == n,
    decreases n,
{
    reveal_with_fuel(digits_value, 2);
    if n < 10 {
        assert(decimal(n).drop_last() =~= Seq::<char>::empty());
    } else {
        decimal_reads_back(n / 10);
        let s = decimal(n);
        assert(s.drop_last() =~= decimal(n / 10));
        assert forall|i: int| 0 <= i < s.len() implies is_digit(#[trigger] s[i]) by {
            if i < s.len() - 1 {
                assert(s[i] == decimal(n / 10)[i]);
            }
        }
    }
}

/// Two digits stand for the number that they were made of.
pub proof fn two_digits_read_back(n: int)
    requires
        0 <= n <= 99,
    ensures
        digits_value(two_digits(n)) == n,
        all_digits(two_digits(n)),
{
    reveal_with_fuel(digits_value, 3);
    let s = two_digits(n);
    assert(s.drop_last().drop_last() =~= Seq::<char>::empty());
}

/// Four digits stand for the number that they were made of.
pub proof fn four_digits_read_back(n: int)
    requires
        0 <= n <= 9999,
    ensures
        digits_value(four_digits(n)) == n,
        all_digits(four_digits(n)),
{
    let s = four_digits(n);
    let s3 = s.drop_last();
    let s2 = s3.drop_last();
    let s1 = s2.drop_last();
    assert(s1.drop_last() =~= Seq::<char>::empty());
    assert(digits_value(s1.drop_last()) == 0);
    assert(digits_value(s1) == n / 1000);
    assert(digits_value(s2) == n / 1000 * 10 + n / 100 % 10);
    assert(digits_value(s3) == n / 1000 * 100 + n / 100 % 10 * 10 + n / 10 % 10);
}

/// Different integers have different numerals.
pub proof fn signed_decimal_injective(a: int, b: int)
    requires
        signed_decimal(a) == signed_decimal(b),
    ensures
        a == b,
{
    let (x, y) = (signed_decimal(a), signed_decimal(b));
    let (m, n) = (
        (if a < 0 { -a } else { a }) as nat,
        (if b < 0 { -b } else { b }) as nat,
    );
    decimal_reads_back(m);
    decimal_reads_back(n);
    assert(x[0] == y[0]);
    if a < 0 {
        assert(b < 0) by {
            if b >= 0 {
                assert(is_digit(decimal(n)[0]));
            }
        }
        assert(x.drop_first() =~= decimal(m));
        assert(y.drop_first() =~= decimal(n));
    } else if b < 0 {
        assert(is_digit(decimal(m)[0]));
    }
}

fn digit_char(d: u8) -> (r: char)
    requires
        d < 10,
    ensures
        r == digit(d as int),
{
    (48 + d) as char
}

/// The decimal numeral of a natural number.
pub(crate) fn unsigned_text(n: u64) -> (r: String)
    ensures
        r@ == decimal(n as nat),
    decreases n,
{
    let mut s = if n < 10 {
        String::new()
    } else {
        unsigned_text(n / 10)
    };
    s.push(digit_char((n % 10) as u8));
    assert(n < 10 ==> s@ =~= decimal(n as nat));
    s
}

/// The magnitude of an integer.
pub(crate) fn magnitude(n: i64) -> (r: u64)
    ensures
        r == (if n < 0 { -n } else { n as int }),
{
    if n >= 0 {
        n as u64
    } else if n == i64::MIN {
        9223372036854775808
    } else {
        (-n) as u64
    }
}

/// The decimal numeral of an integer.
pub(crate) fn signed_text(n: i64) -> (r: String)
    ensures
        r@ == signed_decimal(n as int),
{
    let mut s = String::new();
    if n < 0 {
        s.push('-');
    }
    s.append(unsigned_text(magnitude(n)).as_str());
    assert(s@ =~= signed_decimal(n as int));
    s
}

/// The numeral of a number below a hundred, in two digits.
pub(crate) fn two_digit_text(n: u8) -> (r: String)
    requires
        n < 100,
    ensures
        r@ == two_digits(n as int),
{
    let mut s = String::new();
    s.push(digit_char(n / 10));
    s.push(digit_char(n % 10));
    assert(s@ =~= two_digits(n as int));
    s
}

} // verus!
