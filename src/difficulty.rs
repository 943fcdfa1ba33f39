//! Difficulty: the size of a puzzle's configuration space, and the
//! hash-below-target check on a state digest.
use vstd::prelude::*;

verus! {

/// The unsigned integer read big-endian from the first four bytes of `d`.
pub open spec fn prefix_value(d: Seq<u8>) -> nat {
    d[0] as nat * 16777216 + d[1] as nat * 65536 + d[2] as nat * 256 + d[3] as nat
}

/// Ten to the power `e`.
pub open spec fn pow10(e: nat) -> nat
    decreases e,
{
    if e == 0 {
        1
    } else {
        10 * pow10((e - 1) as nat)
    }
}

/// Whether the four-byte big-endian prefix of `digest` is at most `target`.
pub fn digest_meets_target(digest: &[u8; 32], target: u32) -> (r: bool)
    ensures
        r == (prefix_value(digest@) <= target as nat),
        target == u32::MAX ==> r,
{
    let prefix: u64 = (digest[0] as u64) * 16777216 + (digest[1] as u64) * 65536 + (digest[2] as u64)
        * 256 + (digest[3] as u64);
    prefix <= target as u64
}

/// A configuration count, `mantissa · 10^exponent`, and whether it is the
/// exact number of states or only an estimate.
#[derive(Debug, Clone, Copy, PartialEq, Eq, Structural)]
pub struct Difficulty {
    pub mantissa: u128,
    pub exponent: u32,
    pub exact: bool,
}

/// The decimal digits of `v` in ASCII, most significant first.
pub open spec fn decimal(v: nat) -> Seq<u8>
    decreases v,
{
    if v < 10 {
        seq![(48 + v) as u8]
    } else {
        decimal(v / 10).push((48 + v % 10) as u8)
    }
}

/// `k` ASCII zeros.
pub open spec fn zeros(k: nat) -> Seq<u8> {
    Seq::new(k, |i: int| 48u8)
}

/// Appending a zero digit to a positive number multiplies it by ten.
proof fn lemma_decimal_times_ten(v: nat)
    requires
        v > 0,
    ensures
        decimal(v * 10) == decimal(v).push(48u8),
{
    assert((v * 10) / 10 == v && (v * 10) % 10 == 0 && v * 10 >= 10) by (nonlinear_arith)
        requires
            v > 0,
    ;
}

/// The digits of `v · 10^e` for positive `v` are those of `v` and `e` zeros.
proof fn lemma_decimal_scaled(v: nat, e: nat)
    requires
        v > 0,
    ensures
        decimal(v * pow10(e)) == decimal(v) + zeros(e),
    decreases e,
{
    if e == 0 {
        assert(pow10(e) == 1);
        assert(v * pow10(e) == v);
        assert(decimal(v) + zeros(0) =~= decimal(v));
    } else {
        lemma_decimal_scaled(v, (e - 1) as nat);
        let x = v * pow10((e - 1) as nat);
        lemma_pow10_positive((e - 1) as nat);
        assert(x > 0) by (nonlinear_arith)
            requires
                v > 0,
                pow10((e - 1) as nat) > 0,
                x == v * pow10((e - 1) as nat),
        ;
        assert(v * pow10(e) == x * 10) by (nonlinear_arith)
            requires
                x == v * pow10((e - 1) as nat),
                pow10(e) == 10 * pow10((e - 1) as nat),
        ;
        lemma_decimal_times_ten(x);
        assert(decimal(v) + zeros(e) =~= (decimal(v) + zeros((e - 1) as nat)).push(48u8));
    }
}

proof fn lemma_pow10_positive(e: nat)
    ensures
        pow10(e) >= 1,
    decreases e,
{
    if e > 0 {
        lemma_pow10_positive((e - 1) as nat);
    }
}

/// Appends the decimal digits of `v` to `out`.
fn push_decimal(v: u128, out: &mut Vec<u8>)
    ensures
        final(out)@ == old(out)@ + decimal(v as nat),
    decreases v,
{
    if v >= 10 {
        push_decimal(v / 10, out);
    }
    out.push((48 + v % 10) as u8);
    proof {
        if v >= 10 {
            assert(old(out)@ + decimal(v as nat) =~= (old(out)@ + decimal((v / 10) as nat)).push(
                (48 + v % 10) as u8,
            ));
        } else {
            assert(old(out)@ + decimal(v as nat) =~= old(out)@.push((48 + v % 10) as u8));
        }
    }
}

impl Difficulty {
    /// The number this difficulty stands for.
    pub open spec fn value(&self) -> nat {
        self.mantissa as nat * pow10(self.exponent as nat)
    }

    /// Whether this is the exact number of states rather than an estimate.
    pub fn is_exact(&self) -> (r: bool)
        ensures
            r == self.exact,
    {
        self.exact
    }

    /// The number in decimal, as ASCII digits without leading zeros.
    pub fn to_decimal(&self) -> (digits: Vec<u8>)
        ensures
            digits@ == decimal(self.value()),
    {
        let mut out: Vec<u8> = Vec::new();
        push_decimal(self.mantissa, &mut out);
        if self.mantissa == 0 {
            proof {
                assert(self.value() == 0) by (nonlinear_arith)
                    requires
                        self.mantissa == 0,
                        self.value() == self.mantissa as nat * pow10(self.exponent as nat),
                ;
            }
            return out;
        }
        let mut i: u32 = 0;
        while i < self.exponent
            invariant
                i <= self.exponent,
                out@ == decimal(self.mantissa as nat) + zeros(i as nat),
            decreases self.exponent - i,
        {
            out.push(48u8);
            i += 1;
            assert(out@ =~= decimal(self.mantissa as nat) + zeros(i as nat));
        }
        proof {
            lemma_decimal_scaled(self.mantissa as nat, self.exponent as nat);
        }
        out
    }

    /// The number as a `u128`, when it fits.
    pub fn value_u128(&self) -> (r: Option<u128>)
        ensures
            self.value() <= u128::MAX ==> r == Some(self.value() as u128),
            self.value() > u128::MAX ==> r is None,
    {
        if self.mantissa == 0 {
            proof {
                assert(self.value() == 0) by (nonlinear_arith)
                    requires
                        self.mantissa == 0,
                        self.value() == self.mantissa as nat * pow10(self.exponent as nat),
                ;
            }
            return Some(0);
        }
        let mut acc: u128 = self.mantissa;
        let mut i: u32 = 0;
        proof {
            assert(i as nat == 0);
            assert(pow10(i as nat) == 1);
        }
        while i < self.exponent
            invariant
                i <= self.exponent,
                self.mantissa > 0,
                acc as nat == self.mantissa as nat * pow10(i as nat),
            decreases self.exponent - i,
        {
            match acc.checked_mul(10) {
                Some(next) => {
                    proof {
                        assert(next as nat == self.mantissa as nat * pow10((i + 1) as nat)) by (nonlinear_arith)
                            requires
                                next == acc * 10,
                                acc as nat == self.mantissa as nat * pow10(i as nat),
                                pow10((i + 1) as nat) == 10 * pow10(i as nat),
                        ;
                    }
                    acc = next;
                },
                None => {
                    proof {
                        lemma_value_at_least(self.mantissa as nat, (i + 1) as nat, self.exponent as nat);
                        assert(acc as nat * 10 == self.mantissa as nat * pow10((i + 1) as nat)) by (nonlinear_arith)
                            requires
                                acc as nat == self.mantissa as nat * pow10(i as nat),
                                pow10((i + 1) as nat) == 10 * pow10(i as nat),
                        ;
                    }
                    return None;
                },
            }
            i += 1;
        }
        Some(acc)
    }
}

/// Raising the exponent does not lower the number.
proof fn lemma_value_at_least(m: nat, a: nat, b: nat)
    requires
        a <= b,
    ensures
        m * pow10(a) <= m * pow10(b),
    decreases b,
{
    if a < b {
        lemma_value_at_least(m, a, (b - 1) as nat);
        lemma_pow10_positive((b - 1) as nat);
        assert(m * pow10((b - 1) as nat) <= m * pow10(b)) by (nonlinear_arith)
            requires
                pow10(b) == 10 * pow10((b - 1) as nat),
                pow10((b - 1) as nat) >= 1,
        ;
    }
}

/// With exponent zero the value is the mantissa.
proof fn lemma_plain_value(d: Difficulty)
    requires
        d.exponent == 0,
    ensures
        d.value() == d.mantissa,
{
    assert(d.exponent as nat == 0);
    assert(pow10(0) == 1);
}

/// The estimate used for sizes with no wired-in count: `24·n³`, held at
/// `u128::MAX` when larger.
pub open spec fn estimate(n: nat) -> nat {
    if 24 * n * n * n > u128::MAX {
        u128::MAX as nat
    } else {
        24 * n * n * n
    }
}

/// The figure `calculate_difficulty` gives for size `n`.
pub open spec fn difficulty_value(n: nat) -> nat {
    if n == 1 {
        1
    } else if n == 2 {
        3674160
    } else if n == 3 {
        43252003274489856000
    } else if n == 4 {
        7401196841564901869874093974498574336 * 100000000
    } else {
        estimate(n)
    }
}

/// The configuration count of a cube of size `n`. Sizes 1 to 3 give the
/// exact number of reachable states; size 4 gives a wired-in figure and
/// larger sizes `24·n³`, both marked as estimates.
pub fn calculate_difficulty(n: usize) -> (d: Difficulty)
    ensures
        d.value() == difficulty_value(n as nat),
        d.exact == (1 <= n <= 3),
{
    if n == 1 {
        let d = Difficulty { mantissa: 1, exponent: 0, exact: true };
        proof {
            lemma_plain_value(d);
        }
        d
    } else if n == 2 {
        let d = Difficulty { mantissa: 3674160, exponent: 0, exact: true };
        proof {
            lemma_plain_value(d);
        }
        d
    } else if n == 3 {
        let d = Difficulty { mantissa: 43252003274489856000, exponent: 0, exact: true };
        proof {
            lemma_plain_value(d);
        }
        d
    } else if n == 4 {
        let d = Difficulty { mantissa: 7401196841564901869874093974498574336, exponent: 8, exact: false };
        proof {
            reveal_with_fuel(pow10, 9);
            assert(pow10(8) == 100000000);
            assert(d.exponent as nat == 8);
        }
        d
    } else {
        let m = n as u128;
        proof {
            assert(m * m <= u128::MAX) by (nonlinear_arith)
                requires
                    m <= u64::MAX,
            ;
        }
        let sq = m * m;
        let mantissa = match sq.checked_mul(m) {
            Some(cube) => match cube.checked_mul(24) {
                Some(v) => {
                    proof {
                        assert(v == 24 * n * n * n) by (nonlinear_arith)
                            requires
                                v == cube * 24,
                                cube == sq * m,
                                sq == m * m,
                                m == n,
                        ;
                    }
                    v
                },
                None => {
                    proof {
                        assert(24 * n * n * n > u128::MAX) by (nonlinear_arith)
                            requires
                                cube * 24 > u128::MAX,
                                cube == sq * m,
                                sq == m * m,
                                m == n,
                        ;
                    }
                    u128::MAX
                },
            },
            None => {
                proof {
                    assert(24 * n * n * n > u128::MAX) by (nonlinear_arith)
                        requires
                            sq * m > u128::MAX,
                            sq == m * m,
                            m == n,
                    ;
                }
                u128::MAX
            },
        };
        let d = Difficulty { mantissa, exponent: 0, exact: false };
        proof {
            lemma_plain_value(d);
        }
        d
    }
}

} // verus!
