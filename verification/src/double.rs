//! Double-precision numbers, by way of integers.
//!
//! A double is kept as the bits of its encoding. The few operations that
//! scores and worker counts need are done on mantissas and exponents, each
//! rounded once to the nearest double, ties to even.
use crate::decimal;
use vstd::arithmetic::power2::{
    lemma2_to64, lemma_pow2_adds, lemma_pow2_pos, lemma_pow2_strictly_increases, lemma_pow2_unfold,
    pow2,
};
use vstd::prelude::*;

verus! {

/// A double-precision number, kept as the bits of its encoding.
#[derive(Debug, Clone, Copy, PartialEq, Eq, Structural)]
pub struct Double {
    pub bits: u64,
}

/// The encoding of infinity: the least that is not a finite positive number.
pub const INFINITY_BITS: u64 = 0x7ff0_0000_0000_0000;

/// The encoding of one hundred.
pub const HUNDRED_BITS: u64 = 0x4059_0000_0000_0000;

/// The bit that marks a negative number.
pub const SIGN_BIT: u64 = 0x8000_0000_0000_0000;

/// A positive number: a mantissa times a power of two.
#[verifier::ext_equal]
pub struct Scaled {
    pub mantissa: nat,
    pub exponent: int,
}

/// The integer nearest to `p / q`, ties to even.
pub open spec fn half_even(p: nat, q: nat) -> nat {
    let n = p / q;
    let r = p % q;
    if 2 * r < q {
        n
    } else if 2 * r > q {
        n + 1
    } else if n % 2 == 0 {
        n
    } else {
        n + 1
    }
}

/// The fraction `p / q * 2^e` with `q` doubled until `p / q < 2^53`.
pub open spec fn shrunk(p: nat, q: nat, e: int) -> (nat, nat, int)
    decreases
            if p >= 0x20_0000_0000_0000 * q {
                p - 0x20_0000_0000_0000 * q + 1
            } else {
                0
            },
{
    if q == 0 || p < 0x20_0000_0000_0000 * q {
        (p, q, e)
    } else {
        shrunk(p, 2 * q, e + 1)
    }
}

/// The fraction `p / q * 2^e` with `p` doubled until `2^52 <= p / q`.
pub open spec fn grown(p: nat, q: nat, e: int) -> (nat, nat, int)
    decreases
            if p < 0x10_0000_0000_0000 * q {
                0x10_0000_0000_0000 * q - p
            } else {
                0
            },
{
    if p == 0 || p >= 0x10_0000_0000_0000 * q {
        (p, q, e)
    } else {
        grown(2 * p, q, e - 1)
    }
}

/// The double nearest to `p / q * 2^e`, ties to even.
pub open spec fn rounded(p: nat, q: nat, e: int) -> Scaled {
    let (p1, q1, e1) = shrunk(p, q, e);
    let (p2, q2, e2) = grown(p1, q1, e1);
    Scaled { mantissa: half_even(p2, q2), exponent: e2 }
}

/// The double for a count.
pub open spec fn count(n: nat) -> Scaled {
    rounded(n, 1, 0)
}

/// The quotient of two doubles.
pub open spec fn quotient(a: Scaled, b: Scaled) -> Scaled {
    rounded(a.mantissa, b.mantissa, a.exponent - b.exponent)
}

/// A double times a number.
pub open spec fn times(a: Scaled, factor: nat) -> Scaled {
    rounded(a.mantissa * factor, 1, a.exponent)
}

/// The encoding of a positive double.
pub open spec fn encoded(s: Scaled) -> int {
    (s.exponent + 1075) * 0x10_0000_0000_0000 + s.mantissa - 0x10_0000_0000_0000
}

/// The bits of `part / whole * 100`, computed in doubles, and zero where
/// there is no whole.
pub open spec fn percent_bits(part: nat, whole: nat) -> int {
    if part == 0 || whole == 0 {
        0
    } else {
        encoded(times(quotient(count(part), count(whole)), 100))
    }
}

/// A number as mantissa and exponent.
#[derive(Clone, Copy)]
struct Parts {
    mantissa: u64,
    exponent: i64,
}

impl Parts {
    /// The number that the parts stand for.
    spec fn is(self, s: Scaled) -> bool {
        self.mantissa == s.mantissa && self.exponent == s.exponent
    }
}

/// Powers of two that matter here.
proof fn lemma_powers()
    ensures
        pow2(0) == 1,
        pow2(11) == 0x800,
        pow2(12) == 0x1000,
        pow2(50) == 0x4_0000_0000_0000,
        pow2(51) == 0x8_0000_0000_0000,
        pow2(52) == 0x10_0000_0000_0000,
        pow2(53) == 0x20_0000_0000_0000,
        pow2(60) == 0x1000_0000_0000_0000,
        pow2(64) == 0x1_0000_0000_0000_0000,
        pow2(128) == 0x1_0000_0000_0000_0000 * 0x1_0000_0000_0000_0000,
{
    lemma2_to64();
    vstd::arithmetic::power2::lemma2_to64_rest();
    lemma_pow2_adds(64, 64);
}

/// An exponent is bounded by its power.
proof fn lemma_exponent_below(k: nat, limit: nat)
    requires
        pow2(k) < pow2(limit),
    ensures
        k < limit,
{
    if k >= limit {
        if k > limit {
            lemma_pow2_strictly_increases(limit, k);
        }
    }
}

/// The double nearest to `p / q * 2^e`, ties to even.
fn round_parts(p0: u128, q0: u128, e0: i64) -> (r: Parts)
    requires
        0 < p0 < 0x1_0000_0000_0000_0000 * 0x4000_0000_0000,
        0 < q0 <= 0x20_0000_0000_0000,
        -100_000 <= e0 <= 100_000,
    ensures
        r.is(rounded(p0 as nat, q0 as nat, e0 as int)),
        0x10_0000_0000_0000 <= r.mantissa <= 0x20_0000_0000_0000,
        e0 - 128 <= r.exponent <= e0 + 60,
        p0 < 0x1_0000_0000_0000_0000 ==> r.exponent <= e0 + 12,
        q0 == 1 ==> r.exponent >= e0 - 52,
        p0 <= 0x20_0000_0000_0000 && q0 >= 0x10_0000_0000_0000 ==> r.exponent <= e0 - 51,
{
    proof {
        lemma_powers();
    }
    let mut p: u128 = p0;
    let mut q: u128 = q0;
    let mut e: i64 = e0;
    let ghost mut k: nat = 0;
    while p >= 0x20_0000_0000_0000 * q
        invariant
            p == p0,
            0 < p0 < 0x1_0000_0000_0000_0000 * 0x4000_0000_0000,
            0 < q0,
            q == q0 * pow2(k),
            0 < q < 0x1_0000_0000_0000_0000,
            e == e0 + k,
            -100_000 <= e0 <= 100_000,
            k <= 60,
            k > 0 ==> p >= 0x10_0000_0000_0000 * q,
            shrunk(p0 as nat, q0 as nat, e0 as int) == shrunk(p as nat, q as nat, e as int),
        decreases 60 - k,
    {
        proof {
            lemma_powers();
            lemma_pow2_unfold(k + 1);
            lemma_pow2_pos(k + 1);
            assert(q0 * pow2(k + 1) == 2 * (q0 * pow2(k))) by (nonlinear_arith)
                requires
                    pow2(k + 1) == 2 * pow2(k),
            ;
            assert(q0 * pow2(k + 1) >= pow2(k + 1)) by (nonlinear_arith)
                requires
                    q0 >= 1,
                    pow2(k + 1) > 0,
            ;
            assert(2 * q < pow2(60));
            lemma_exponent_below(k + 1, 60);
        }
        q = 2 * q;
        e = e + 1;
        proof {
            k = k + 1;
        }
    }
    let ghost q1 = q;
    let ghost e1 = e;
    let ghost shifts = k;
    let ghost mut j: nat = 0;
    proof {
        lemma_powers();
        assert(q < 0x1_0000_0000_0000_0000);
    }
    while p < 0x10_0000_0000_0000 * q
        invariant
            0 < p0,
            p == p0 * pow2(j),
            0 < p < 0x20_0000_0000_0000 * q,
            0 < q < 0x1_0000_0000_0000_0000,
            q == q1,
            e == e1 - j,
            -100_000 <= e1 <= 100_060,
            j <= 128,
            j > 0 ==> p0 < 0x10_0000_0000_0000 * q,
            grown(p0 as nat, q1 as nat, e1 as int) == grown(p as nat, q as nat, e as int),
        decreases 128 - j,
    {
        proof {
            lemma_powers();
            lemma_pow2_unfold(j + 1);
            lemma_pow2_pos(j + 1);
            assert(p0 * pow2(j + 1) == 2 * (p0 * pow2(j))) by (nonlinear_arith)
                requires
                    pow2(j + 1) == 2 * pow2(j),
            ;
            assert(p0 * pow2(j + 1) >= pow2(j + 1)) by (nonlinear_arith)
                requires
                    p0 >= 1,
                    pow2(j + 1) > 0,
            ;
            assert(2 * p < pow2(128));
            lemma_exponent_below(j + 1, 128);
        }
        p = 2 * p;
        e = e - 1;
        proof {
            j = j + 1;
        }
    }
    let n: u128 = p / q;
    let rest: u128 = p % q;
    proof {
        assert(p == q * n + rest) by {
            vstd::arithmetic::div_mod::lemma_fundamental_div_mod(p as int, q as int);
        }
        assert(0x10_0000_0000_0000 <= n < 0x20_0000_0000_0000) by (nonlinear_arith)
            requires
                p == q * n + rest,
                0 <= rest < q,
                0x10_0000_0000_0000 * q <= p < 0x20_0000_0000_0000 * q,
                q > 0,
        ;
        if p0 < 0x1_0000_0000_0000_0000 && shifts > 0 {
            lemma_pow2_pos(shifts);
            assert(q0 * pow2(shifts) >= pow2(shifts)) by (nonlinear_arith)
                requires
                    q0 >= 1,
                    pow2(shifts) > 0,
            ;
            assert(q1 < pow2(12));
            lemma_exponent_below(shifts, 12);
        }
        if q0 == 1 && shifts == 0 {
            assert(q1 == 1);
            lemma_pow2_pos(j);
            assert(p0 * pow2(j) >= pow2(j)) by (nonlinear_arith)
                requires
                    p0 >= 1,
                    pow2(j) > 0,
            ;
            lemma_exponent_below(j, 53);
        }
        if p0 <= 0x20_0000_0000_0000 && q0 >= 0x10_0000_0000_0000 {
            assert(shifts == 0);
            lemma_powers();
            assert(p >= 0x10_0000_0000_0000 * q);
            assert(q == q0);
            if j < 51 {
                if j < 50 {
                    lemma_pow2_strictly_increases(j, 50);
                }
                assert(p0 * pow2(j) <= 0x20_0000_0000_0000 * pow2(50)) by (nonlinear_arith)
                    requires
                        p0 <= 0x20_0000_0000_0000,
                        pow2(j) <= pow2(50),
                        pow2(j) >= 0,
                ;
            }
        }
    }
    let up: bool = 2 * rest > q || (2 * rest == q && n % 2 == 1);
    let mantissa: u64 = if up {
        n as u64 + 1
    } else {
        n as u64
    };
    Parts { mantissa, exponent: e }
}

/// The double nearest to a count.
fn count_parts(n: usize) -> (r: Parts)
    requires
        n > 0,
    ensures
        r.is(count(n as nat)),
        0x10_0000_0000_0000 <= r.mantissa <= 0x20_0000_0000_0000,
        -52 <= r.exponent <= 12,
{
    round_parts(n as u128, 1, 0)
}

/// `part / whole * 100`, computed in doubles, and zero where there is no whole.
pub fn percent(part: usize, whole: usize) -> (r: Double)
    ensures
        r.bits == percent_bits(part as nat, whole as nat),
        r.is_small(),
        part <= whole ==> r.bits <= HUNDRED_BITS,
{
    proof {
        if part <= whole {
            law_a_part_is_at_most_a_hundred_percent(part as nat, whole as nat);
        }
    }
    if part == 0 || whole == 0 {
        return Double { bits: 0 };
    }
    let a: Parts = count_parts(part);
    let b: Parts = count_parts(whole);
    let c: Parts = round_parts(
        a.mantissa as u128,
        b.mantissa as u128,
        a.exponent - b.exponent,
    );
    let d: Parts = round_parts(c.mantissa as u128 * 100, 1, c.exponent);
    let biased: u64 = (d.exponent + 1075) as u64;
    Double { bits: biased * 0x10_0000_0000_0000 + (d.mantissa - 0x10_0000_0000_0000) }
}

impl Double {
    /// The bits of the mantissa, without the leading one.
    pub open spec fn fraction(self) -> nat {
        (self.bits % 0x10_0000_0000_0000) as nat
    }

    /// The exponent field of a number without a sign.
    pub open spec fn biased(self) -> nat {
        (self.bits / 0x10_0000_0000_0000) as nat
    }

    /// The number that the bits of a positive number stand for.
    pub open spec fn value(self) -> Scaled {
        if self.biased() == 0 {
            Scaled { mantissa: self.fraction(), exponent: -1074 }
        } else {
            Scaled {
                mantissa: self.fraction() + 0x10_0000_0000_0000,
                exponent: self.biased() - 1075,
            }
        }
    }

    /// Whether the number is not negative and less than 2^100.
    pub open spec fn is_small(self) -> bool {
        self.biased() < 1075 + 48
    }

    /// The number in tenths, rounded to the nearest, ties to even.
    pub open spec fn tenths(self) -> nat {
        let s = self.value();
        if s.exponent >= 0 {
            s.mantissa * pow2(s.exponent as nat) * 10
        } else {
            half_even(s.mantissa * 10, pow2((-s.exponent) as nat))
        }
    }

    /// A finite number that is not negative in decimals, with one digit after
    /// the point.
    pub open spec fn finite_text(self) -> Seq<char> {
        decimal::digits(self.tenths() / 10) + "."@ + decimal::digits(self.tenths() % 10)
    }

    /// The number without its sign.
    pub open spec fn magnitude(self) -> Double {
        Double { bits: (self.bits % SIGN_BIT) as u64 }
    }

    /// The number in decimals, with one digit after the point.
    pub open spec fn one_decimal_text(self) -> Seq<char> {
        if self.is_nan() {
            "NaN"@
        } else {
            (if self.bits >= SIGN_BIT {
                "-"@
            } else {
                ""@
            }) + (if self.magnitude().bits == INFINITY_BITS {
                "inf"@
            } else {
                self.magnitude().finite_text()
            })
        }
    }

    /// Whether the bits are those of no number at all.
    pub open spec fn is_nan(self) -> bool {
        self.bits % SIGN_BIT > INFINITY_BITS
    }

    /// The place of a number in the order of numbers. Both zeros have the same.
    pub open spec fn rank(self) -> int {
        if self.bits >= SIGN_BIT {
            SIGN_BIT - self.bits
        } else {
            self.bits as int
        }
    }

    /// Whether a number is at least another one, as `>=` has it for doubles:
    /// what is no number is never at least anything, nor reached.
    pub open spec fn reaches(self, other: Double) -> bool {
        !self.is_nan() && !other.is_nan() && self.rank() >= other.rank()
    }

    /// Whether a number is at least another one.
    pub fn at_least(&self, other: Double) -> (r: bool)
        ensures
            r == self.reaches(other),
    {
        if self.bits % SIGN_BIT > INFINITY_BITS || other.bits % SIGN_BIT > INFINITY_BITS {
            return false;
        }
        if self.bits >= SIGN_BIT {
            if other.bits >= SIGN_BIT {
                self.bits <= other.bits
            } else {
                self.bits == SIGN_BIT && other.bits == 0
            }
        } else {
            other.bits >= SIGN_BIT || self.bits >= other.bits
        }
    }

    /// The number in decimals, with one digit after the point.
    pub fn one_decimal(&self) -> (r: String)
        ensures
            r@ == self.one_decimal_text(),
    {
        let magnitude: u64 = self.bits % SIGN_BIT;
        if magnitude > INFINITY_BITS {
            return "NaN".to_owned();
        }
        let mut out: String = if self.bits >= SIGN_BIT {
            "-".to_owned()
        } else {
            "".to_owned()
        };
        if magnitude == INFINITY_BITS {
            out.append("inf");
        } else {
            out.append((Double { bits: magnitude }).finite_decimal().as_str());
        }
        out
    }

    /// A finite number that is not negative in decimals.
    fn finite_decimal(&self) -> (r: String)
        requires
            self.bits < INFINITY_BITS,
        ensures
            r@ == self.finite_text(),
    {
        let biased: u64 = self.bits / 0x10_0000_0000_0000;
        if biased < 1075 + 48 {
            let t: u128 = self.count_tenths();
            let mut out: String = String::new();
            decimal::push_digits(t / 10, &mut out);
            out.append(".");
            decimal::push_digits(t % 10, &mut out);
            assert(out@ =~= self.finite_text());
            return out;
        }
        let m: u64 = self.bits % 0x10_0000_0000_0000 + 0x10_0000_0000_0000;
        let k: u64 = biased - 1075;
        let mut figures: Vec<u8> = list_figures(m);
        let mut i: u64 = 0;
        proof {
            lemma_powers();
        }
        while i < k
            invariant
                i <= k,
                m > 0,
                are_figures(figures@),
                figures@.len() > 0,
                figures_value(figures@) == m * pow2(i as nat),
            decreases k - i,
        {
            proof {
                lemma_pow2_unfold((i + 1) as nat);
                assert(m * pow2((i + 1) as nat) == 2 * (m * pow2(i as nat))) by (nonlinear_arith)
                    requires
                        pow2((i + 1) as nat) == 2 * pow2(i as nat),
                ;
                lemma_pow2_pos((i + 1) as nat);
                assert(m * pow2((i + 1) as nat) > 0) by (nonlinear_arith)
                    requires
                        m > 0,
                        pow2((i + 1) as nat) > 0,
                ;
            }
            assert(figures@.take(figures@.len() as int) =~= figures@);
            figures = double_figures(&figures, figures.len(), 0);
            i = i + 1;
        }
        let ghost whole = (m * pow2(k as nat)) as nat;
        proof {
            lemma_figures_are_digits(figures@);
            assert(self.tenths() == whole * 10);
            assert(self.tenths() / 10 == whole);
            assert(self.tenths() % 10 == 0);
            reveal_strlit(".0");
            reveal_strlit(".");
            assert(decimal::digits(0) == seq!['0']);
        }
        let mut out: String = String::new();
        let mut j: usize = 0;
        while j < figures.len()
            invariant
                j <= figures@.len(),
                are_figures(figures@),
                out@ == figures_text(figures@.take(j as int)),
            decreases figures.len() - j,
        {
            assert(figures@.take(j + 1).drop_last() =~= figures@.take(j as int));
            assert(figures@[j as int] < 10);
            out.push((48 + figures[j]) as char);
            j = j + 1;
        }
        assert(figures@.take(j as int) =~= figures@);
        out.append(".0");
        assert(out@ =~= self.finite_text());
        out
    }

    /// The number in tenths, rounded to the nearest, ties to even.
    fn count_tenths(&self) -> (r: u128)
        requires
            self.is_small(),
        ensures
            r == self.tenths(),
    {
        let biased: u64 = self.bits / 0x10_0000_0000_0000;
        let fraction: u64 = self.bits % 0x10_0000_0000_0000;
        if biased >= 1075 {
            let power: u128 = two_to((biased - 1075) as u32);
            let m: u128 = fraction as u128 + 0x10_0000_0000_0000;
            proof {
                lemma_powers();
                lemma2_to64();
                vstd::arithmetic::power2::lemma2_to64_rest();
                lemma_pow2_strictly_increases((biased - 1075) as nat, 48);
                assert(m * power * 10 <= 0x20_0000_0000_0000 * 0x1_0000_0000_0000 * 10)
                    by (nonlinear_arith)
                    requires
                        m <= 0x20_0000_0000_0000,
                        0 <= power <= 0x1_0000_0000_0000,
                ;
                assert(m * power <= 0x20_0000_0000_0000 * 0x1_0000_0000_0000) by (nonlinear_arith)
                    requires
                        m <= 0x20_0000_0000_0000,
                        0 <= power <= 0x1_0000_0000_0000,
                ;
            }
            return m * power * 10;
        }
        let (m, k): (u128, u64) = if biased == 0 {
            (fraction as u128, 1074)
        } else {
            (fraction as u128 + 0x10_0000_0000_0000, 1075 - biased)
        };
        if k >= 60 {
            proof {
                lemma_powers();
                lemma2_to64();
                vstd::arithmetic::power2::lemma2_to64_rest();
                if k > 60 {
                    lemma_pow2_strictly_increases(60, k as nat);
                }
                let q = pow2(k as nat);
                let p = (m * 10) as nat;
                assert(p / q == 0 && p % q == p) by {
                    vstd::arithmetic::div_mod::lemma_basic_div(p as int, q as int);
                    vstd::arithmetic::div_mod::lemma_small_mod(p, q);
                }
            }
            return 0;
        }
        let q: u128 = two_to(k as u32);
        let p: u128 = m * 10;
        proof {
            lemma_pow2_pos(k as nat);
        }
        let n: u128 = p / q;
        let rest: u128 = p % q;
        proof {
            lemma_powers();
            lemma2_to64();
            vstd::arithmetic::power2::lemma2_to64_rest();
            lemma_pow2_strictly_increases(k as nat, 60);
        }
        if 2 * rest > q || (2 * rest == q && n % 2 == 1) {
            n + 1
        } else {
            n
        }
    }
}

/// A positive number without its fraction.
pub open spec fn whole_part(s: Scaled) -> nat {
    if s.exponent >= 0 {
        s.mantissa * pow2(s.exponent as nat)
    } else {
        s.mantissa / pow2((-s.exponent) as nat)
    }
}

/// The product of two positive doubles.
pub open spec fn product(a: Scaled, b: Scaled) -> Scaled {
    rounded(a.mantissa * b.mantissa, 1, a.exponent + b.exponent)
}

/// The share of a count that a ratio stands for, computed in doubles, without
/// its fraction. It is at most the largest count, and nothing where the ratio
/// is negative or no number.
pub open spec fn share_of(ratio: Double, n: nat) -> nat {
    if n == 0 || ratio.bits == 0 || ratio.is_nan() || ratio.bits >= SIGN_BIT {
        0
    } else if ratio.bits == INFINITY_BITS {
        usize::MAX as nat
    } else {
        let whole = whole_part(product(ratio.value(), count(n)));
        if whole > usize::MAX {
            usize::MAX as nat
        } else {
            whole
        }
    }
}

/// The share of a count that a ratio stands for.
pub fn share(ratio: Double, n: usize) -> (r: usize)
    ensures
        r == share_of(ratio, n as nat),
{
    if n == 0 || ratio.bits == 0 || ratio.bits % SIGN_BIT > INFINITY_BITS || ratio.bits
        >= SIGN_BIT {
        return 0;
    }
    if ratio.bits == INFINITY_BITS {
        return usize::MAX;
    }
    let biased: u64 = ratio.bits / 0x10_0000_0000_0000;
    let fraction: u64 = ratio.bits % 0x10_0000_0000_0000;
    let (m, e): (u64, i64) = if biased == 0 {
        (fraction, -1074)
    } else {
        (fraction + 0x10_0000_0000_0000, biased as i64 - 1075)
    };
    let c: Parts = count_parts(n);
    proof {
        assert(0 < m * c.mantissa <= 0x20_0000_0000_0000 * 0x20_0000_0000_0000)
            by (nonlinear_arith)
            requires
                0 < m <= 0x20_0000_0000_0000,
                0 < c.mantissa <= 0x20_0000_0000_0000,
        ;
    }
    let d: Parts = round_parts(m as u128 * c.mantissa as u128, 1, e + c.exponent);
    proof {
        lemma_powers();
    }
    if d.exponent >= 12 {
        proof {
            if d.exponent > 12 {
                lemma_pow2_strictly_increases(12, d.exponent as nat);
            }
            assert(d.mantissa * pow2(d.exponent as nat) >= 0x10_0000_0000_0000 * 0x1000)
                by (nonlinear_arith)
                requires
                    d.mantissa >= 0x10_0000_0000_0000,
                    pow2(d.exponent as nat) >= 0x1000,
            ;
        }
        return usize::MAX;
    }
    let whole: u128 = if d.exponent >= 0 {
        let power: u128 = two_to(d.exponent as u32);
        proof {
            lemma_pow2_strictly_increases(d.exponent as nat, 12);
            assert(d.mantissa * power <= 0x20_0000_0000_0000 * 0x1000) by (nonlinear_arith)
                requires
                    d.mantissa <= 0x20_0000_0000_0000,
                    0 <= power <= 0x1000,
            ;
        }
        d.mantissa as u128 * power
    } else if d.exponent <= -64 {
        proof {
            let k = (-d.exponent) as nat;
            if k > 64 {
                lemma_pow2_strictly_increases(64, k);
            }
            vstd::arithmetic::div_mod::lemma_basic_div(d.mantissa as int, pow2(k) as int);
        }
        0
    } else {
        let k: u32 = (-d.exponent) as u32;
        let power: u128 = two_to(k);
        proof {
            lemma_pow2_pos(k as nat);
        }
        d.mantissa as u128 / power
    };
    if whole > usize::MAX as u128 {
        usize::MAX
    } else {
        whole as usize
    }
}

/// The number that decimal figures stand for, the most significant first.
spec fn figures_value(list: Seq<u8>) -> nat
    decreases list.len(),
{
    if list.len() == 0 {
        0
    } else {
        10 * figures_value(list.drop_last()) + list.last() as nat
    }
}

/// Whether a list holds decimal figures, without leading zeros.
spec fn are_figures(list: Seq<u8>) -> bool {
    &&& forall|i: int| 0 <= i < list.len() ==> (#[trigger] list[i]) < 10
    &&& list.len() > 0 ==> list[0] > 0
}

/// Decimal figures as text.
spec fn figures_text(list: Seq<u8>) -> Seq<char>
    decreases list.len(),
{
    if list.len() == 0 {
        Seq::empty()
    } else {
        figures_text(list.drop_last()).push(decimal::digit(list.last() as nat))
    }
}

/// Figures without leading zeros stand for a positive number.
proof fn lemma_figures_positive(list: Seq<u8>)
    requires
        are_figures(list),
        list.len() > 0,
    ensures
        figures_value(list) > 0,
    decreases list.len(),
{
    if list.len() > 1 {
        assert(are_figures(list.drop_last()));
        lemma_figures_positive(list.drop_last());
    } else {
        assert(figures_value(list.drop_last()) == 0);
    }
}

/// The figures of a number are its digits.
proof fn lemma_figures_are_digits(list: Seq<u8>)
    requires
        are_figures(list),
        list.len() > 0,
    ensures
        decimal::digits(figures_value(list)) == figures_text(list),
    decreases list.len(),
{
    let tail = list.drop_last();
    let last = list.last() as nat;
    assert(list[list.len() - 1] < 10);
    if list.len() == 1 {
        assert(figures_value(tail) == 0);
        assert(figures_text(tail) =~= Seq::empty());
        assert(figures_text(list) =~= seq![decimal::digit(last)]);
    } else {
        assert(are_figures(tail));
        lemma_figures_positive(tail);
        lemma_figures_are_digits(tail);
        let n = figures_value(list);
        assert(n / 10 == figures_value(tail) && n % 10 == last);
        assert(figures_text(list) =~= decimal::digits(n));
    }
}

/// The decimal figures of a number.
fn list_figures(n: u64) -> (r: Vec<u8>)
    requires
        n > 0,
    ensures
        are_figures(r@),
        r@.len() > 0,
        figures_value(r@) == n,
    decreases n,
{
    let mut out: Vec<u8> = if n < 10 {
        Vec::new()
    } else {
        list_figures(n / 10)
    };
    let ghost before = out@;
    assert(n < 10 ==> before =~= Seq::empty());
    out.push((n % 10) as u8);
    assert(out@.drop_last() =~= before);
    assert(figures_value(Seq::<u8>::empty()) == 0);
    out
}

/// The decimal figures of twice a number plus a carry. The number is that of
/// the first `n` figures of a list.
fn double_figures(list: &Vec<u8>, n: usize, carry: u8) -> (r: Vec<u8>)
    requires
        are_figures(list@),
        n <= list@.len(),
        carry < 2,
    ensures
        are_figures(r@),
        figures_value(r@) == 2 * figures_value(list@.take(n as int)) + carry,
        n > 0 ==> r@.len() > 0,
    decreases n,
{
    if n == 0 {
        let mut out: Vec<u8> = Vec::new();
        if carry > 0 {
            out.push(carry);
            assert(out@.drop_last() =~= Seq::empty());
            assert(figures_value(Seq::<u8>::empty()) == 0);
        }
        return out;
    }
    assert(list@[n - 1] < 10);
    let d: u8 = 2 * list[n - 1] + carry;
    let mut out: Vec<u8> = double_figures(list, n - 1, d / 10);
    let ghost before = out@;
    out.push(d % 10);
    assert(out@.drop_last() =~= before);
    assert(list@.take(n as int).drop_last() =~= list@.take(n - 1));
    proof {
        if before.len() == 0 {
            assert(n == 1);
            assert(list@[0] > 0);
            assert(figures_value(before) == 0);
        }
    }
    out
}

/// Doubling the numerator of a number over itself ends at 2^52.
proof fn lemma_one_grows(m: nat, j: nat, e: int)
    requires
        m > 0,
        j <= 52,
    ensures
        grown(m * pow2(j), m, e) == (m * 0x10_0000_0000_0000, m, e - (52 - j)),
    decreases 52 - j,
{
    lemma_powers();
    lemma_pow2_pos(j);
    assert(m * pow2(j) > 0) by (nonlinear_arith)
        requires
            m > 0,
            pow2(j) > 0,
    ;
    if j < 52 {
        lemma_pow2_strictly_increases(j, 52);
        lemma_pow2_unfold(j + 1);
        assert(m * pow2(j) < 0x10_0000_0000_0000 * m) by (nonlinear_arith)
            requires
                m > 0,
                pow2(j) < 0x10_0000_0000_0000,
        ;
        assert(2 * (m * pow2(j)) == m * pow2(j + 1)) by (nonlinear_arith)
            requires
                pow2(j + 1) == 2 * pow2(j),
        ;
        lemma_one_grows(m, j + 1, e - 1);
    }
}

/// Doubling a denominator leaves the numerator.
proof fn lemma_shrunk(p: nat, q: nat, e: int)
    requires
        q > 0,
    ensures
        shrunk(p, q, e).0 == p,
        shrunk(p, q, e).1 > 0,
    decreases
            if p >= 0x20_0000_0000_0000 * q {
                p - 0x20_0000_0000_0000 * q + 1
            } else {
                0
            },
{
    if p >= 0x20_0000_0000_0000 * q {
        lemma_shrunk(p, 2 * q, e + 1);
    }
}

/// A numerator is doubled until it is large enough.
proof fn lemma_grown(p: nat, q: nat, e: int)
    requires
        p > 0,
    ensures
        grown(p, q, e).0 >= 0x10_0000_0000_0000 * grown(p, q, e).1,
        grown(p, q, e).1 == q,
    decreases
            if p < 0x10_0000_0000_0000 * q {
                0x10_0000_0000_0000 * q - p
            } else {
                0
            },
{
    if p < 0x10_0000_0000_0000 * q {
        lemma_grown(2 * p, q, e - 1);
    }
}

/// A percentage of the whole is exactly one hundred.
pub proof fn law_the_whole_is_a_hundred_percent(n: nat)
    requires
        0 < n,
    ensures
        percent_bits(n, n) == HUNDRED_BITS,
{
    let s = count(n);
    let m = s.mantissa;
    lemma_shrunk(n, 1, 0);
    let (p, q, e) = shrunk(n, 1, 0);
    lemma_grown(p, q, e);
    let (p2, q2, _) = grown(p, q, e);
    assert(p2 / q2 >= 0x10_0000_0000_0000) by {
        vstd::arithmetic::div_mod::lemma_div_is_ordered(
            0x10_0000_0000_0000 * q2 as int,
            p2 as int,
            q2 as int,
        );
        vstd::arithmetic::div_mod::lemma_div_multiples_vanish(0x10_0000_0000_0000, q2 as int);
        assert(0x10_0000_0000_0000 * q2 == q2 * 0x10_0000_0000_0000);
    }
    lemma_powers();
    assert(m < 0x20_0000_0000_0000 * m);
    assert(m * 1 == m);
    lemma_one_grows(m, 0, 0);
    let whole = 0x10_0000_0000_0000nat;
    assert((m * whole) / m == whole && (m * whole) % m == 0) by {
        vstd::arithmetic::div_mod::lemma_div_multiples_vanish(whole as int, m as int);
        vstd::arithmetic::div_mod::lemma_mod_multiples_basic(whole as int, m as int);
        assert(m * whole == whole * m) by (nonlinear_arith);
    }
    let one = quotient(s, s);
    assert(one == (Scaled { mantissa: whole, exponent: -52 }));
    reveal_with_fuel(shrunk, 8);
    assert(shrunk(whole * 100, 1, -52) == (whole * 100, 64nat, -46int));
    assert(grown(whole * 100, 64, -46) == (whole * 100, 64nat, -46int));
}

/// Whether `a * 2^d` is at most `b`.
spec fn shifted_at_most(a: nat, b: nat, d: int) -> bool {
    if d >= 0 {
        a * pow2(d as nat) <= b
    } else {
        a <= b * pow2((-d) as nat)
    }
}

/// Whether `p1 / q1 * 2^e1` is at most `p2 / q2 * 2^e2`.
spec fn at_most(p1: nat, q1: nat, e1: int, p2: nat, q2: nat, e2: int) -> bool {
    shifted_at_most(p1 * q2, p2 * q1, e1 - e2)
}

/// A number times a power of two doubles with either.
proof fn lemma_doubled(a: nat, k: nat)
    ensures
        a * pow2(k + 1) == 2 * (a * pow2(k)),
        (2 * a) * pow2(k) == 2 * (a * pow2(k)),
{
    lemma_pow2_unfold(k + 1);
    assert(a * pow2(k + 1) == 2 * (a * pow2(k))) by (nonlinear_arith)
        requires
            pow2(k + 1) == 2 * pow2(k),
    ;
    assert((2 * a) * pow2(k) == 2 * (a * pow2(k))) by (nonlinear_arith);
}

/// A factor of two may stand on either side or in the exponent.
proof fn lemma_shift_is_rewritten(a: nat, b: nat, d: int)
    ensures
        shifted_at_most(a, 2 * b, d + 1) == shifted_at_most(a, b, d),
        shifted_at_most(2 * a, b, d - 1) == shifted_at_most(a, b, d),
{
    lemma_powers();
    assert(a * 1 == a && b * 1 == b);
    if d > 0 {
        lemma_doubled(a, d as nat);
        lemma_doubled(a, (d - 1) as nat);
        assert((d - 1) as nat + 1 == d as nat);
    } else if d == 0 {
        lemma_doubled(a, 0);
        lemma_doubled(b, 0);
    } else {
        let k = (-d) as nat;
        lemma_doubled(b, k);
        lemma_doubled(b, (k - 1) as nat);
        assert((-(d + 1)) as nat == (k - 1) as nat);
        assert((-(d - 1)) as nat == k + 1);
    }
}

/// The left side of a comparison may be written with `q` doubled, or with `p`
/// doubled.
proof fn lemma_left_is_rewritten(p1: nat, q1: nat, e1: int, p2: nat, q2: nat, e2: int)
    ensures
        at_most(p1, 2 * q1, e1 + 1, p2, q2, e2) == at_most(p1, q1, e1, p2, q2, e2),
        at_most(2 * p1, q1, e1 - 1, p2, q2, e2) == at_most(p1, q1, e1, p2, q2, e2),
{
    assert((2 * p1) * q2 == 2 * (p1 * q2)) by (nonlinear_arith);
    assert(p2 * (2 * q1) == 2 * (p2 * q1)) by (nonlinear_arith);
    lemma_shift_is_rewritten(p1 * q2, p2 * q1, e1 - e2);
}

/// The right side of a comparison may be written with `q` doubled, or with `p`
/// doubled.
proof fn lemma_right_is_rewritten(p1: nat, q1: nat, e1: int, p2: nat, q2: nat, e2: int)
    ensures
        at_most(p1, q1, e1, p2, 2 * q2, e2 + 1) == at_most(p1, q1, e1, p2, q2, e2),
        at_most(p1, q1, e1, 2 * p2, q2, e2 - 1) == at_most(p1, q1, e1, p2, q2, e2),
{
    assert(p1 * (2 * q2) == 2 * (p1 * q2)) by (nonlinear_arith);
    assert((2 * p2) * q1 == 2 * (p2 * q1)) by (nonlinear_arith);
    lemma_shift_is_rewritten(p1 * q2, p2 * q1, e1 - e2);
}

/// Shrinking and growing leave a fraction what it is.
proof fn lemma_normal_form(
    p: nat,
    q: nat,
    e: int,
    p2: nat,
    q2: nat,
    e2: int,
)
    requires
        p > 0,
        q > 0,
    ensures
        ({
            let (ps, qs, es) = shrunk(p, q, e);
            let (n, m, x) = grown(ps, qs, es);
            &&& m > 0
            &&& 0x10_0000_0000_0000 * m <= n < 0x20_0000_0000_0000 * m
            &&& at_most(n, m, x, p2, q2, e2) == at_most(p, q, e, p2, q2, e2)
            &&& at_most(p2, q2, e2, n, m, x) == at_most(p2, q2, e2, p, q, e)
        }),
{
    lemma_shrinking_keeps(p, q, e, p2, q2, e2);
    let (ps, qs, es) = shrunk(p, q, e);
    lemma_growing_keeps(ps, qs, es, p2, q2, e2);
}

/// Shrinking leaves a fraction what it is.
proof fn lemma_shrinking_keeps(p: nat, q: nat, e: int, p2: nat, q2: nat, e2: int)
    requires
        p > 0,
        q > 0,
    ensures
        ({
            let (n, m, x) = shrunk(p, q, e);
            &&& n > 0 && m > 0
            &&& n < 0x20_0000_0000_0000 * m
            &&& at_most(n, m, x, p2, q2, e2) == at_most(p, q, e, p2, q2, e2)
            &&& at_most(p2, q2, e2, n, m, x) == at_most(p2, q2, e2, p, q, e)
        }),
    decreases
            if p >= 0x20_0000_0000_0000 * q {
                p - 0x20_0000_0000_0000 * q + 1
            } else {
                0
            },
{
    if p >= 0x20_0000_0000_0000 * q {
        lemma_shrinking_keeps(p, 2 * q, e + 1, p2, q2, e2);
        lemma_left_is_rewritten(p, q, e, p2, q2, e2);
        lemma_right_is_rewritten(p2, q2, e2, p, q, e);
    }
}

/// Growing leaves a fraction what it is.
proof fn lemma_growing_keeps(p: nat, q: nat, e: int, p2: nat, q2: nat, e2: int)
    requires
        p > 0,
        q > 0,
        p < 0x20_0000_0000_0000 * q,
    ensures
        ({
            let (n, m, x) = grown(p, q, e);
            &&& m > 0
            &&& 0x10_0000_0000_0000 * m <= n < 0x20_0000_0000_0000 * m
            &&& at_most(n, m, x, p2, q2, e2) == at_most(p, q, e, p2, q2, e2)
            &&& at_most(p2, q2, e2, n, m, x) == at_most(p2, q2, e2, p, q, e)
        }),
    decreases
            if p < 0x10_0000_0000_0000 * q {
                0x10_0000_0000_0000 * q - p
            } else {
                0
            },
{
    if p < 0x10_0000_0000_0000 * q {
        lemma_growing_keeps(2 * p, q, e - 1, p2, q2, e2);
        lemma_left_is_rewritten(p, q, e, p2, q2, e2);
        lemma_right_is_rewritten(p2, q2, e2, p, q, e);
    }
}

/// Rounding to the nearest integer keeps bounds that are integers.
proof fn lemma_half_even_between(p: nat, q: nat, low: nat, high: nat)
    requires
        q > 0,
        low * q <= p <= high * q,
    ensures
        low <= half_even(p, q) <= high,
{
    let n = p / q;
    let r = p % q;
    vstd::arithmetic::div_mod::lemma_fundamental_div_mod(p as int, q as int);
    assert(low <= n) by (nonlinear_arith)
        requires
            low * q <= p,
            p == q * n + r,
            0 <= r < q,
    ;
    assert(n < high || n == high && r == 0) by (nonlinear_arith)
        requires
            p <= high * q,
            p == q * n + r,
            0 <= r < q,
    ;
}

/// Rounding to the nearest integer keeps the order of fractions.
proof fn lemma_half_even_keeps_order(p1: nat, q1: nat, p2: nat, q2: nat)
    requires
        q1 > 0,
        q2 > 0,
        p1 * q2 <= p2 * q1,
    ensures
        half_even(p1, q1) <= half_even(p2, q2),
{
    let n1 = p1 / q1;
    let r1 = p1 % q1;
    let n2 = p2 / q2;
    let r2 = p2 % q2;
    vstd::arithmetic::div_mod::lemma_fundamental_div_mod(p1 as int, q1 as int);
    vstd::arithmetic::div_mod::lemma_fundamental_div_mod(p2 as int, q2 as int);
    assert(n1 * (q1 * q2) + r1 * q2 <= n2 * (q1 * q2) + r2 * q1) by (nonlinear_arith)
        requires
            p1 * q2 <= p2 * q1,
            p1 == q1 * n1 + r1,
            p2 == q2 * n2 + r2,
    ;
    assert(r2 * q1 < q1 * q2) by (nonlinear_arith)
        requires
            0 <= r2 < q2,
            q1 > 0,
    ;
    assert(r1 * q2 >= 0) by (nonlinear_arith)
        requires
            r1 >= 0,
            q2 >= 0,
    ;
    assert(q1 * q2 > 0) by (nonlinear_arith)
        requires
            q1 > 0,
            q2 > 0,
    ;
    assert(n1 <= n2) by (nonlinear_arith)
        requires
            n1 * (q1 * q2) + r1 * q2 <= n2 * (q1 * q2) + r2 * q1,
            r2 * q1 < q1 * q2,
            r1 * q2 >= 0,
            q1 * q2 > 0,
    ;
    if n1 == n2 {
        assert(r1 * q2 <= r2 * q1);
        if 2 * r1 > q1 {
            assert(2 * r2 > q2) by (nonlinear_arith)
                requires
                    2 * r1 > q1,
                    r1 * q2 <= r2 * q1,
                    q1 > 0,
                    q2 > 0,
            ;
        } else if 2 * r1 == q1 {
            assert(2 * r2 >= q2) by (nonlinear_arith)
                requires
                    2 * r1 == q1,
                    r1 * q2 <= r2 * q1,
                    q1 > 0,
                    q2 > 0,
            ;
        }
    }
}

/// Rounding to the nearest double keeps the order of numbers.
proof fn lemma_rounding_keeps_order(p1: nat, q1: nat, e1: int, p2: nat, q2: nat, e2: int)
    requires
        p1 > 0,
        q1 > 0,
        p2 > 0,
        q2 > 0,
        at_most(p1, q1, e1, p2, q2, e2),
    ensures
        encoded(rounded(p1, q1, e1)) <= encoded(rounded(p2, q2, e2)),
        0x10_0000_0000_0000 <= rounded(p1, q1, e1).mantissa <= 0x20_0000_0000_0000,
        0x10_0000_0000_0000 <= rounded(p2, q2, e2).mantissa <= 0x20_0000_0000_0000,
{
    lemma_normal_form(p1, q1, e1, p2, q2, e2);
    let (s1, t1, x1) = shrunk(p1, q1, e1);
    let (n1, m1, f1) = grown(s1, t1, x1);
    lemma_normal_form(p2, q2, e2, n1, m1, f1);
    let (s2, t2, x2) = shrunk(p2, q2, e2);
    let (n2, m2, f2) = grown(s2, t2, x2);
    assert(at_most(n1, m1, f1, n2, m2, f2));
    lemma_half_even_between(n1, m1, 0x10_0000_0000_0000, 0x20_0000_0000_0000);
    lemma_half_even_between(n2, m2, 0x10_0000_0000_0000, 0x20_0000_0000_0000);
    if f1 == f2 {
        lemma_powers();
        assert(n1 * m2 * 1 == n1 * m2);
        lemma_half_even_keeps_order(n1, m1, n2, m2);
    } else if f1 > f2 {
        let d = (f1 - f2) as nat;
        lemma_powers();
        lemma_pow2_unfold(1);
        if d > 1 {
            lemma_pow2_strictly_increases(1, d);
        }
        assert(n1 * m2 * pow2(d) <= n2 * m1);
        assert(false) by (nonlinear_arith)
            requires
                n1 * m2 * pow2(d) <= n2 * m1,
                pow2(d) >= 2,
                n1 >= 0x10_0000_0000_0000 * m1,
                n2 < 0x20_0000_0000_0000 * m2,
                m1 > 0,
                m2 > 0,
        ;
    }
}

/// A number whose encoding is not above that of another is at most the other,
/// also when both are multiplied.
proof fn lemma_encoding_keeps_order(a: Scaled, b: Scaled, factor: nat)
    requires
        encoded(a) <= encoded(b),
        0x10_0000_0000_0000 <= a.mantissa <= 0x20_0000_0000_0000,
        0x10_0000_0000_0000 <= b.mantissa <= 0x20_0000_0000_0000,
    ensures
        at_most(a.mantissa * factor, 1, a.exponent, b.mantissa * factor, 1, b.exponent),
        at_most(a.mantissa, b.mantissa, a.exponent - b.exponent, 1, 1, 0),
{
    let m = a.mantissa;
    let n = b.mantissa;
    let d = a.exponent - b.exponent;
    lemma_powers();
    lemma_pow2_unfold(1);
    assert(m * factor * 1 == m * factor);
    assert(n * factor * 1 == n * factor);
    if d == 0 {
        assert(m * factor <= n * factor) by (nonlinear_arith)
            requires
                m <= n,
        ;
    } else if d > 0 {
        assert(d == 1 && m == 0x10_0000_0000_0000 && n == 0x20_0000_0000_0000);
        assert(m * factor * 2 == n * factor) by (nonlinear_arith)
            requires
                n == m * 2,
        ;
    } else {
        let k = (-d) as nat;
        if k > 1 {
            lemma_pow2_strictly_increases(1, k);
        }
        assert(m * factor <= n * factor * pow2(k)) by (nonlinear_arith)
            requires
                m <= n * 2,
                pow2(k) >= 2,
                factor >= 0,
                n >= 0,
        ;
        assert(m <= n * pow2(k)) by (nonlinear_arith)
            requires
                m <= n * 2,
                pow2(k) >= 2,
                n >= 0,
        ;
    }
}

/// A percentage of a part of the whole is at most one hundred.
pub proof fn law_a_part_is_at_most_a_hundred_percent(part: nat, whole: nat)
    requires
        part <= whole,
    ensures
        percent_bits(part, whole) <= HUNDRED_BITS,
{
    if part > 0 {
        lemma_powers();
        assert(part * 1 * 1 == part);
        assert(whole * 1 == whole);
        lemma_rounding_keeps_order(part, 1, 0, whole, 1, 0);
        let a = count(part);
        let b = count(whole);
        lemma_encoding_keeps_order(a, b, 1);
        lemma_rounding_keeps_order(a.mantissa, b.mantissa, a.exponent - b.exponent, 1, 1, 0);
        let c = quotient(a, b);
        let one = rounded(1, 1, 0);
        lemma_encoding_keeps_order(c, one, 100);
        lemma_rounding_keeps_order(
            c.mantissa * 100,
            1,
            c.exponent,
            one.mantissa * 100,
            1,
            one.exponent,
        );
        lemma_one_grows(1, 0, 0);
        let full = 0x10_0000_0000_0000nat;
        assert(1 * full == full);
        assert(one == (Scaled { mantissa: full, exponent: -52 }));
        reveal_with_fuel(shrunk, 8);
        assert(shrunk(full * 100, 1, -52) == (full * 100, 64nat, -46int));
        assert(grown(full * 100, 64, -46) == (full * 100, 64nat, -46int));
    }
}

/// A power of two.
fn two_to(k: u32) -> (r: u128)
    requires
        k <= 64,
    ensures
        r == pow2(k as nat),
{
    let mut r: u128 = 1;
    let mut i: u32 = 0;
    proof {
        lemma_powers();
    }
    while i < k
        invariant
            i <= k <= 64,
            r == pow2(i as nat),
        decreases k - i,
    {
        proof {
            lemma_powers();
            lemma_pow2_unfold((i + 1) as nat);
            if i < 64 {
                lemma_pow2_strictly_increases(i as nat, 64);
            }
        }
        r = 2 * r;
        i = i + 1;
    }
    r
}

/// Rounding is to the nearest number, and to the even one of two that are as
/// near.
pub proof fn law_rounding_is_to_the_nearest(p: nat, q: nat, n: nat)
    requires
        q > 0,
    ensures
        2 * (n * q) < 2 * p + q && 2 * p < 2 * (n * q) + q ==> half_even(p, q) == n,
        2 * p == 2 * (n * q) + q ==> half_even(p, q) == if n % 2 == 0 {
            n
        } else {
            n + 1
        },
{
    let d = p / q;
    let r = p % q;
    vstd::arithmetic::div_mod::lemma_fundamental_div_mod(p as int, q as int);
    assert(0 <= r < q);
    assert(q * d == d * q) by (nonlinear_arith);
    if 2 * p == 2 * (n * q) + q {
        if d < n {
            assert((d + 1) * q <= n * q) by (nonlinear_arith)
                requires
                    d + 1 <= n,
                    q > 0,
            ;
            assert((d + 1) * q == d * q + q) by (nonlinear_arith);
        }
        if d > n {
            assert((n + 1) * q <= d * q) by (nonlinear_arith)
                requires
                    n + 1 <= d,
                    q > 0,
            ;
            assert((n + 1) * q == n * q + q) by (nonlinear_arith);
        }
        assert(d == n);
    }
    if 2 * (n * q) < 2 * p + q && 2 * p < 2 * (n * q) + q {
        if d + 1 < n {
            assert((d + 2) * q <= n * q) by (nonlinear_arith)
                requires
                    d + 2 <= n,
                    q > 0,
            ;
            assert((d + 2) * q == d * q + 2 * q) by (nonlinear_arith);
        }
        if d > n {
            assert((n + 1) * q <= d * q) by (nonlinear_arith)
                requires
                    n + 1 <= d,
                    q > 0,
            ;
            assert((n + 1) * q == n * q + q) by (nonlinear_arith);
        }
        assert(d == n || d + 1 == n);
        if d + 1 == n {
            assert(n * q == d * q + q) by (nonlinear_arith)
                requires
                    n == d + 1,
            ;
        }
    }
}

/// The bits of a number in normal form are read back as that number.
pub proof fn law_encoding_is_undone(s: Scaled)
    requires
        0x10_0000_0000_0000 <= s.mantissa < 0x20_0000_0000_0000,
        -1074 <= s.exponent < 972,
    ensures
        (Double { bits: encoded(s) as u64 }).value() == s,
{
    let e = s.exponent + 1075;
    let f = s.mantissa - 0x10_0000_0000_0000;
    let bits = encoded(s);
    assert(bits == e * 0x10_0000_0000_0000 + f);
    assert(0 <= bits <= u64::MAX);
    assert(bits / 0x10_0000_0000_0000 == e && bits % 0x10_0000_0000_0000 == f);
}

/// Numbers are compared by size: of two that are not negative the one with the
/// greater bits is greater, a negative one reaches no positive one, of two
/// negative ones the one with the smaller bits is greater, and what is not a
/// number reaches nothing and is reached by nothing.
pub proof fn law_numbers_are_compared_by_size(a: Double, b: Double)
    ensures
        a.is_nan() || b.is_nan() ==> !a.reaches(b),
        !a.is_nan() && !b.is_nan() ==> a.reaches(b) || b.reaches(a),
        !a.is_nan() && !b.is_nan() && a.bits < SIGN_BIT && b.bits < SIGN_BIT ==> (a.reaches(b)
            <==> a.bits >= b.bits),
        !a.is_nan() && !b.is_nan() && a.bits >= SIGN_BIT && b.bits >= SIGN_BIT ==> (a.reaches(b)
            <==> a.bits <= b.bits),
        !a.is_nan() && !b.is_nan() && a.bits > SIGN_BIT && b.bits < SIGN_BIT ==> !a.reaches(b),
        a.bits == SIGN_BIT && b.bits == 0 ==> a.reaches(b) && b.reaches(a),
{
}

/// A number is told with one digit behind the point, in front of which stands
/// the sign of a negative one.
pub proof fn law_numbers_are_told_in_tenths(d: Double, whole: nat, tenth: nat)
    requires
        d.bits < INFINITY_BITS,
        tenth < 10,
        d.tenths() == whole * 10 + tenth,
    ensures
        d.one_decimal_text() == decimal::digits(whole) + "."@ + decimal::digits(tenth),
        (Double { bits: (d.bits + SIGN_BIT) as u64 }).one_decimal_text() == "-"@
            + d.one_decimal_text(),
        (Double { bits: INFINITY_BITS }).one_decimal_text() == "inf"@,
        (Double { bits: (INFINITY_BITS + SIGN_BIT) as u64 }).one_decimal_text() == "-"@ + "inf"@,
{
    reveal_strlit("");
    assert(d.tenths() / 10 == whole && d.tenths() % 10 == tenth);
    assert(d.magnitude() == d);
    let text = decimal::digits(whole) + "."@ + decimal::digits(tenth);
    assert(""@ + text =~= text);
    let negative = Double { bits: (d.bits + SIGN_BIT) as u64 };
    assert(negative.magnitude() == d);
    let inf = Double { bits: INFINITY_BITS };
    assert(inf.magnitude() == inf);
    assert(""@ + "inf"@ =~= "inf"@);
    assert((Double { bits: (INFINITY_BITS + SIGN_BIT) as u64 }).magnitude() == inf);
}

/// The percentage grows with the part, and falls with the whole.
pub proof fn law_percent_follows_the_part(a: nat, b: nat, v: nat, w: nat)
    requires
        0 < a <= b,
        0 < v <= w,
    ensures
        percent_bits(a, w) <= percent_bits(b, w),
        percent_bits(a, w) <= percent_bits(a, v),
{
    lemma_powers();
    lemma_rounding_keeps_order(a, 1, 0, b, 1, 0);
    lemma_rounding_keeps_order(v, 1, 0, w, 1, 0);
    let ca = count(a);
    let cb = count(b);
    let cv = count(v);
    let cw = count(w);
    lemma_encoding_keeps_order(ca, cb, cw.mantissa);
    lemma_encoding_keeps_order(cv, cw, ca.mantissa);
    assert(ca.mantissa * cw.mantissa == cw.mantissa * ca.mantissa) by (nonlinear_arith);
    assert(ca.mantissa * cv.mantissa == cv.mantissa * ca.mantissa) by (nonlinear_arith);
    assert(cb.mantissa * cw.mantissa == cw.mantissa * cb.mantissa) by (nonlinear_arith);
    let low = quotient(ca, cw);
    let part = quotient(cb, cw);
    let whole = quotient(ca, cv);
    lemma_rounding_keeps_order(
        ca.mantissa,
        cw.mantissa,
        ca.exponent - cw.exponent,
        cb.mantissa,
        cw.mantissa,
        cb.exponent - cw.exponent,
    );
    lemma_rounding_keeps_order(
        ca.mantissa,
        cw.mantissa,
        ca.exponent - cw.exponent,
        ca.mantissa,
        cv.mantissa,
        ca.exponent - cv.exponent,
    );
    lemma_encoding_keeps_order(low, part, 100);
    lemma_encoding_keeps_order(low, whole, 100);
    assert(low.mantissa * 100 > 0 && part.mantissa * 100 > 0 && whole.mantissa * 100 > 0);
    lemma_rounding_keeps_order(
        low.mantissa * 100,
        1,
        low.exponent,
        part.mantissa * 100,
        1,
        part.exponent,
    );
    lemma_rounding_keeps_order(
        low.mantissa * 100,
        1,
        low.exponent,
        whole.mantissa * 100,
        1,
        whole.exponent,
    );
}

/// No share is taken of nothing, nor by a ratio that is zero, negative or not a
/// number, and an infinite ratio takes all that can be counted.
pub proof fn law_shares_are_bounded(ratio: Double, n: nat)
    ensures
        share_of(ratio, n) <= usize::MAX,
        n == 0 || ratio.bits == 0 || ratio.is_nan() || ratio.bits >= SIGN_BIT ==> share_of(ratio, n)
            == 0,
        ratio.bits == INFINITY_BITS && n > 0 ==> share_of(ratio, n) == usize::MAX,
        ratio.bits < INFINITY_BITS && ratio.bits > 0 && n > 0 && whole_part(
            product(ratio.value(), count(n)),
        ) <= usize::MAX ==> share_of(ratio, n) == whole_part(product(ratio.value(), count(n))),
{
}

/// The whole part of a number is the greatest integer that is not above it.
pub proof fn law_the_whole_part_is_not_above(s: Scaled)
    requires
        s.exponent < 0,
    ensures
        whole_part(s) * pow2((-s.exponent) as nat) <= s.mantissa,
        s.mantissa < (whole_part(s) + 1) * pow2((-s.exponent) as nat),
{
    let q = pow2((-s.exponent) as nat);
    lemma_pow2_pos((-s.exponent) as nat);
    let m = s.mantissa;
    vstd::arithmetic::div_mod::lemma_fundamental_div_mod(m as int, q as int);
    let d = m / q;
    assert(0 <= m % q < q) by {
        vstd::arithmetic::div_mod::lemma_mod_bound(m as int, q as int);
    }
    assert(q * d == d * q) by (nonlinear_arith);
    assert((d + 1) * q == d * q + q) by (nonlinear_arith);
}

} // verus!
