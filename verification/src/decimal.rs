//! Decimal text of integers.
use vstd::prelude::*;

verus! {

/// The character for a digit.
pub open spec fn digit(d: nat) -> char {
    (48 + d) as char
}

/// The decimal digits of a natural number.
pub open spec fn digits(n: nat) -> Seq<char>
    decreases n,
{
    if n < 10 {
        seq![digit(n)]
    } else {
        digits(n / 10).push(digit(n % 10))
    }
}

/// The decimal text of an integer.
pub open spec fn decimal(n: int) -> Seq<char> {
    if n < 0 {
        seq!['-'] + digits((-n) as nat)
    } else {
        digits(n as nat)
    }
}

/// Appends the decimal digits of `n`.
pub fn push_digits(n: u128, out: &mut String)
    ensures
        final(out)@ == old(out)@ + digits(n as nat),
    decreases n,
{
    if n >= 10 {
        push_digits(n / 10, out);
    }
    let d: u8 = (n % 10) as u8;
    out.push((48 + d) as char);
    assert(out@ =~= old(out)@ + digits(n as nat));
}

/// The decimal text of an unsigned number.
pub fn decimal_u128(n: u128) -> (r: String)
    ensures
        r@ == decimal(n as int),
{
    let mut out: String = String::new();
    push_digits(n, &mut out);
    assert(out@ =~= decimal(n as int));
    out
}

/// The decimal text of an unsigned number.
pub fn decimal_u64(n: u64) -> (r: String)
    ensures
        r@ == decimal(n as int),
{
    decimal_u128(n as u128)
}

/// The decimal text of an unsigned number.
pub fn decimal_usize(n: usize) -> (r: String)
    ensures
        r@ == decimal(n as int),
{
    decimal_u128(n as u128)
}

/// The decimal text of a number with a sign.
pub fn decimal_i64(n: i64) -> (r: String)
    ensures
        r@ == decimal(n as int),
{
    let mut out: String = String::new();
    if n < 0 {
        out.push('-');
        push_digits((-(n as i128)) as u128, &mut out);
    } else {
        push_digits(n as u128, &mut out);
    }
    assert(out@ =~= decimal(n as int));
    out
}

/// The number that decimal digits stand for.
pub open spec fn value_of(s: Seq<char>) -> int
    decreases s.len(),
{
    if s.len() == 0 {
        0
    } else {
        value_of(s.drop_last()) * 10 + (s.last() as int - '0' as int)
    }
}

/// The digits of a number stand for it. They are all digits, and the first is
/// not a zero unless it is the only one.
pub proof fn law_digits_stand_for_the_number(n: nat)
    ensures
        value_of(digits(n)) == n,
        digits(n).len() > 0,
        forall|i: int| 0 <= i < digits(n).len() ==> '0' <= #[trigger] digits(n)[i] <= '9',
        digits(n)[0] == '0' ==> n == 0,
    decreases n,
{
    if n < 10 {
        let one = seq![digit(n)];
        assert(one.drop_last() =~= Seq::<char>::empty());
        assert(value_of(one.drop_last()) == 0);
        assert(one.last() == digit(n));
        assert(digits(n)[0] == digit(n));
    } else {
        law_digits_stand_for_the_number(n / 10);
        let init = digits(n / 10);
        assert(digits(n).drop_last() =~= init);
        assert(digits(n).last() == digit(n % 10));
        assert(digits(n)[0] == init[0]);
    }
}

/// The decimal text of an integer is a minus sign where it is negative, and
/// then the digits of its magnitude.
pub proof fn law_decimal_text_stands_for_the_integer(n: int)
    ensures
        n >= 0 ==> value_of(decimal(n)) == n && '0' <= decimal(n)[0] <= '9',
        n < 0 ==> decimal(n)[0] == '-' && value_of(decimal(n).drop_first()) == -n,
{
    if n < 0 {
        law_digits_stand_for_the_number((-n) as nat);
        assert(decimal(n).drop_first() =~= digits((-n) as nat));
    } else {
        law_digits_stand_for_the_number(n as nat);
        assert(digits(n as nat)[0] == decimal(n)[0]);
    }
}

} // verus!
