//! Numbers read from text.
use crate::lines;
use crate::decimal;
use vstd::prelude::*;

verus! {

/// Why a text is no number.
#[derive(Debug, Clone, Copy, PartialEq, Eq, Structural)]
pub enum NumberProblem {
    /// There is nothing to read.
    Empty,
    /// A character is not a digit.
    InvalidDigit,
    /// The number does not fit.
    TooLarge,
}

impl NumberProblem {
    /// What the problem is called in messages.
    pub open spec fn text(self) -> Seq<char> {
        match self {
            NumberProblem::Empty => "cannot parse integer from empty string"@,
            NumberProblem::InvalidDigit => "invalid digit found in string"@,
            NumberProblem::TooLarge => "number too large to fit in target type"@,
        }
    }

    /// What the problem is called in messages.
    pub fn message(&self) -> (r: &'static str)
        ensures
            r@ == self.text(),
    {
        match self {
            NumberProblem::Empty => "cannot parse integer from empty string",
            NumberProblem::InvalidDigit => "invalid digit found in string",
            NumberProblem::TooLarge => "number too large to fit in target type",
        }
    }
}

/// Whether a character is a decimal digit.
pub open spec fn is_digit(c: char) -> bool {
    '0' <= c <= '9'
}

/// The number that digits stand for, read from the left until a problem shows.
pub open spec fn digits_value(s: Seq<char>, limit: nat) -> Result<nat, NumberProblem>
    decreases s.len(),
{
    if s.len() == 0 {
        Ok(0)
    } else {
        match digits_value(s.drop_last(), limit) {
            Err(problem) => Err(problem),
            Ok(n) => if !is_digit(s.last()) {
                Err(NumberProblem::InvalidDigit)
            } else if n * 10 + (s.last() as nat - 48) > limit {
                Err(NumberProblem::TooLarge)
            } else {
                Ok((n * 10 + (s.last() as nat - 48)) as nat)
            },
        }
    }
}

/// The number up to a limit that a text stands for. A sign `+` may lead it.
pub open spec fn number_value(s: Seq<char>, limit: nat) -> Result<nat, NumberProblem> {
    if s.len() == 0 {
        Err(NumberProblem::Empty)
    } else if s.len() > 1 && s[0] == '+' {
        digits_value(s.drop_first(), limit)
    } else {
        digits_value(s, limit)
    }
}

/// The unsigned 32-bit number that a text stands for.
pub open spec fn u32_value(s: Seq<char>) -> Result<u32, NumberProblem> {
    match number_value(s, u32::MAX as nat) {
        Ok(n) => Ok(n as u32),
        Err(problem) => Err(problem),
    }
}

/// The unsigned 64-bit number that a text stands for.
pub open spec fn u64_value(s: Seq<char>) -> Result<u64, NumberProblem> {
    match number_value(s, u64::MAX as nat) {
        Ok(n) => Ok(n as u64),
        Err(problem) => Err(problem),
    }
}

/// A problem in the first digits is the problem of all.
proof fn lemma_problem_stays(s: Seq<char>, limit: nat, i: int)
    requires
        0 <= i <= s.len(),
        digits_value(s.take(i), limit) is Err,
    ensures
        digits_value(s, limit) == digits_value(s.take(i), limit),
    decreases s.len() - i,
{
    if i < s.len() {
        assert(s.take(i + 1).drop_last() =~= s.take(i));
        lemma_problem_stays(s, limit, i + 1);
    } else {
        assert(s.take(i) =~= s);
    }
}

/// Whether a result is the given one.
spec fn is_value(r: Result<u64, NumberProblem>, value: Result<nat, NumberProblem>) -> bool {
    match value {
        Ok(n) => r matches Ok(m) && m == n,
        Err(problem) => r == Err::<u64, NumberProblem>(problem),
    }
}

/// Reads a number up to a limit.
fn parse_number(s: &str, limit: u64) -> (r: Result<u64, NumberProblem>)
    ensures
        is_value(r, number_value(s@, limit as nat)),
        r matches Ok(n) ==> n <= limit,
{
    let list: Vec<char> = lines::chars(s);
    let total: usize = list.len();
    if total == 0 {
        return Err(NumberProblem::Empty);
    }
    let start: usize = if total > 1 && list[0] == '+' {
        1
    } else {
        0
    };
    let ghost all = list@.skip(start as int);
    let ghost bound = limit as nat;
    assert(list@.skip(0) =~= list@);
    assert(list@.skip(1) =~= list@.drop_first());
    let mut n: u64 = 0;
    let mut i: usize = start;
    assert(all.take(0) =~= Seq::empty());
    while i < total
        invariant
            start <= i <= total,
            total == list@.len(),
            all == list@.skip(start as int),
            bound == limit,
            n <= limit,
            number_value(s@, bound) == digits_value(all, bound),
            digits_value(all.take(i - start), bound) == Ok::<nat, NumberProblem>(n as nat),
        decreases total - i,
    {
        let c: char = list[i];
        let ghost some = all.take(i - start + 1);
        assert(some.drop_last() =~= all.take(i - start));
        assert(some.last() == c);
        if !('0' <= c && c <= '9') {
            proof {
                lemma_problem_stays(all, bound, i - start + 1);
            }
            return Err(NumberProblem::InvalidDigit);
        }
        let next: u128 = n as u128 * 10 + (c as u32 - 48) as u128;
        if next > limit as u128 {
            proof {
                lemma_problem_stays(all, bound, i - start + 1);
            }
            return Err(NumberProblem::TooLarge);
        }
        n = next as u64;
        i = i + 1;
    }
    assert(all.take(i - start) =~= all);
    Ok(n)
}

/// Reads an unsigned 32-bit number.
pub fn parse_u32(s: &str) -> (r: Result<u32, NumberProblem>)
    ensures
        r == u32_value(s@),
{
    match parse_number(s, u32::MAX as u64) {
        Ok(n) => Ok(n as u32),
        Err(problem) => Err(problem),
    }
}

/// Reads an unsigned 64-bit number.
pub fn parse_u64(s: &str) -> (r: Result<u64, NumberProblem>)
    ensures
        r == u64_value(s@),
{
    parse_number(s, u64::MAX)
}

/// Digits are read as the number that they stand for, as far as it is within
/// the limit.
proof fn lemma_digits_are_read(s: Seq<char>, limit: nat)
    requires
        forall|i: int| 0 <= i < s.len() ==> '0' <= #[trigger] s[i] <= '9',
    ensures
        decimal::value_of(s) >= 0,
        digits_value(s, limit) == if decimal::value_of(s) <= limit {
            Ok::<nat, NumberProblem>(decimal::value_of(s) as nat)
        } else {
            Err(NumberProblem::TooLarge)
        },
    decreases s.len(),
{
    if s.len() > 0 {
        let rest = s.drop_last();
        assert forall|i: int| 0 <= i < rest.len() implies '0' <= #[trigger] rest[i] <= '9' by {
            assert(rest[i] == s[i]);
        }
        lemma_digits_are_read(rest, limit);
        assert(s[s.len() - 1] == s.last());
    }
}

/// Whether a text is made of digits.
pub open spec fn all_digits(s: Seq<char>) -> bool {
    forall|i: int| 0 <= i < s.len() ==> '0' <= #[trigger] s[i] <= '9'
}

/// A text is read as a number where it is made of digits, after a plus sign or
/// not, and is the number that they stand for. Any other text is refused.
pub proof fn law_numbers_are_read(s: Seq<char>)
    ensures
        ({
            let d = if s.len() > 1 && s[0] == '+' {
                s.drop_first()
            } else {
                s
            };
            let plain = s.len() > 0 && all_digits(d);
            &&& u32_value(s) matches Ok(n) ==> plain && n == decimal::value_of(d)
            &&& u64_value(s) matches Ok(n) ==> plain && n == decimal::value_of(d)
            &&& plain ==> (u32_value(s) is Ok <==> decimal::value_of(d) <= u32::MAX)
            &&& plain ==> (u64_value(s) is Ok <==> decimal::value_of(d) <= u64::MAX)
        }),
{
    let d = if s.len() > 1 && s[0] == '+' {
        s.drop_first()
    } else {
        s
    };
    lemma_only_digits(d, u32::MAX as nat);
    lemma_only_digits(d, u64::MAX as nat);
    if all_digits(d) {
        lemma_digits_are_read(d, u32::MAX as nat);
        lemma_digits_are_read(d, u64::MAX as nat);
    }
}

proof fn lemma_only_digits(s: Seq<char>, limit: nat)
    ensures
        digits_value(s, limit) is Ok ==> forall|i: int|
            0 <= i < s.len() ==> '0' <= #[trigger] s[i] <= '9',
        digits_value(s, limit) matches Ok(n) ==> n <= limit,
    decreases s.len(),
{
    if s.len() > 0 {
        let rest = s.drop_last();
        lemma_only_digits(rest, limit);
        if digits_value(s, limit) is Ok {
            assert forall|i: int| 0 <= i < s.len() implies '0' <= #[trigger] s[i] <= '9' by {
                if i < rest.len() {
                    assert(rest[i] == s[i]);
                }
            }
        }
    }
}

/// The decimal text of a number is read back as the number.
pub proof fn law_decimal_text_is_read_back(n: u64)
    ensures
        u64_value(decimal::decimal(n as int)) == Ok::<u64, NumberProblem>(n),
        n <= u32::MAX ==> u32_value(decimal::decimal(n as int)) == Ok::<u32, NumberProblem>(
            n as u32,
        ),
{
    let s = decimal::decimal(n as int);
    decimal::law_digits_stand_for_the_number(n as nat);
    assert(s[0] != '+');
    law_numbers_are_read(s);
}

} // verus!
