//! IEEE-754 numbers as bit patterns.
//!
//! The adapter decides things about floating-point values (are they finite, integral, inside a
//! range) that are exact questions about their bits. They are answered here in integer arithmetic.

use vstd::prelude::*;
use vstd::arithmetic::power2::*;

verus! {

/// A binary64 number, held as its bit pattern.
#[derive(Clone, Copy, Debug, PartialEq, Eq, Structural)]
pub struct F64 {
    pub bits: u64,
}

/// A binary32 number, held as its bit pattern.
#[derive(Clone, Copy, Debug, PartialEq, Eq, Structural)]
pub struct F32 {
    pub bits: u32,
}

pub const ONE_BITS: u64 = 0x3FF0_0000_0000_0000;

pub const NEGATIVE_ZERO_BITS: u64 = 0x8000_0000_0000_0000;

impl F64 {
    pub open spec fn negative(self) -> bool {
        self.bits as int / 0x8000_0000_0000_0000 == 1
    }

    /// The biased exponent field.
    pub open spec fn exponent(self) -> int {
        (self.bits as int / 0x10_0000_0000_0000) % 0x800
    }

    /// The fraction field.
    pub open spec fn fraction(self) -> int {
        self.bits as int % 0x10_0000_0000_0000
    }

    /// Neither an infinity nor a NaN.
    pub open spec fn finite(self) -> bool {
        self.exponent() != 0x7FF
    }

    /// The integer significand: a finite number is `±mantissa · 2^power`.
    pub open spec fn mantissa(self) -> nat {
        if self.exponent() == 0 {
            self.fraction() as nat
        } else {
            (self.fraction() + 0x10_0000_0000_0000) as nat
        }
    }

    pub open spec fn power(self) -> int {
        if self.exponent() == 0 {
            -1074
        } else {
            self.exponent() - 1075
        }
    }

    /// The magnitude in units of the smallest subnormal, `2^-1074`.
    pub open spec fn magnitude(self) -> nat {
        self.mantissa() * pow2((self.power() + 1074) as nat)
    }

    /// The number has no fractional part.
    pub open spec fn integral(self) -> bool {
        self.power() >= 0 || self.mantissa() % pow2((-self.power()) as nat) == 0
    }

    /// The magnitude rounded to an integer, halves away from zero.
    pub open spec fn rounded_magnitude(self) -> nat {
        if self.power() >= 0 {
            self.mantissa() * pow2(self.power() as nat)
        } else {
            (self.mantissa() + pow2((-self.power() - 1) as nat)) / pow2((-self.power()) as nat)
        }
    }

    /// The number rounded to an integer, halves away from zero.
    pub open spec fn rounded(self) -> int {
        if self.negative() {
            -(self.rounded_magnitude() as int)
        } else {
            self.rounded_magnitude() as int
        }
    }

    /// The pattern that stands for this number among those that compare equal to it: negative zero
    /// is zero.
    pub open spec fn canonical(self) -> u64 {
        if self.bits == NEGATIVE_ZERO_BITS {
            0
        } else {
            self.bits
        }
    }

    /// Whether the number is neither an infinity nor a NaN.
    pub fn is_finite(self) -> (r: bool)
        ensures
            r == self.finite(),
    {
        (self.bits / 0x10_0000_0000_0000) % 0x800 != 0x7FF
    }

    /// Whether the two numbers compare equal, for numbers that are not NaN.
    pub fn same_number(self, other: F64) -> (r: bool)
        ensures
            r == (self.canonical() == other.canonical()),
    {
        let a: u64 = if self.bits == NEGATIVE_ZERO_BITS {
            0
        } else {
            self.bits
        };
        let b: u64 = if other.bits == NEGATIVE_ZERO_BITS {
            0
        } else {
            other.bits
        };
        a == b
    }

    /// Whether the finite number has no fractional part.
    pub fn is_integral(self) -> (r: bool)
        requires
            self.finite(),
        ensures
            r == self.integral(),
    {
        let exponent: u64 = (self.bits / 0x10_0000_0000_0000) % 0x800;
        let fraction: u64 = self.bits % 0x10_0000_0000_0000;
        let mantissa: u64 = if exponent == 0 {
            fraction
        } else {
            fraction + 0x10_0000_0000_0000
        };
        if exponent >= 1075 {
            return true;
        }
        let shift: u64 = if exponent == 0 {
            1074
        } else {
            1075 - exponent
        };
        if mantissa == 0 {
            proof {
                lemma_pow2_pos(shift as nat);
                assert(0nat % pow2(shift as nat) == 0) by (nonlinear_arith)
                    requires
                        pow2(shift as nat) > 0,
                ;
            }
            return true;
        }
        if shift >= 53 {
            proof {
                lemma_pow2_at_53();
                if shift > 53 {
                    lemma_pow2_strictly_increases(53, shift as nat);
                }
                vstd::arithmetic::div_mod::lemma_small_mod(
                    mantissa as nat,
                    pow2(shift as nat),
                );
            }
            return false;
        }
        let unit: u64 = two_to(shift as u32);
        proof {
            lemma_pow2_pos(shift as nat);
        }
        mantissa % unit == 0
    }

    /// The number rounded to an integer, halves away from zero, when that integer lies in
    /// `[lo, hi]`.
    pub fn rounded_in(self, lo: i128, hi: i128) -> (r: Option<i128>)
        requires
            self.finite(),
            -0x1_0000_0000_0000_0000 <= lo,
            hi <= 0x1_0000_0000_0000_0000,
        ensures
            r is Some <==> lo <= self.rounded() <= hi,
            r is Some ==> r->0 == self.rounded(),
    {
        let exponent: u64 = (self.bits / 0x10_0000_0000_0000) % 0x800;
        let fraction: u64 = self.bits % 0x10_0000_0000_0000;
        let mantissa: u64 = if exponent == 0 {
            fraction
        } else {
            fraction + 0x10_0000_0000_0000
        };
        let magnitude: i128;
        if exponent >= 1075 {
            let shift: u64 = exponent - 1075;
            if shift >= 13 {
                proof {
                    lemma_large_magnitude(mantissa as nat, shift as nat);
                }
                return None;
            }
            let unit: u64 = two_to(shift as u32);
            proof {
                lemma_shift_below_13(shift as nat);
                assert(mantissa * unit < 0x20_0000_0000_0000 * 0x2000) by (nonlinear_arith)
                    requires
                        mantissa < 0x20_0000_0000_0000,
                        unit <= 0x1000,
                ;
            }
            magnitude = (mantissa as i128) * (unit as i128);
        } else {
            let shift: u64 = if exponent == 0 {
                1074
            } else {
                1075 - exponent
            };
            if shift >= 55 {
                proof {
                    lemma_tiny_magnitude(mantissa as nat, shift as nat);
                }
                magnitude = 0;
            } else {
                let unit: u64 = two_to(shift as u32);
                let half: u64 = two_to((shift - 1) as u32);
                proof {
                    lemma_pow2_pos(shift as nat);
                    lemma_two_to_bound((shift - 1) as nat);
                }
                let q: u64 = (mantissa + half) / unit;
                magnitude = q as i128;
            }
        }
        assert(magnitude == self.rounded_magnitude());
        let signed: i128 = if self.bits / 0x8000_0000_0000_0000 == 1 {
            -magnitude
        } else {
            magnitude
        };
        if signed < lo || signed > hi {
            None
        } else {
            Some(signed)
        }
    }

    /// Whether the finite number's magnitude is past the largest binary32 number,
    /// `(2^24 - 1) · 2^104`.
    pub fn exceeds_f32(self) -> (r: bool)
        requires
            self.finite(),
        ensures
            r == (self.magnitude() > f32_max_magnitude()),
    {
        let exponent: u64 = (self.bits / 0x10_0000_0000_0000) % 0x800;
        let fraction: u64 = self.bits % 0x10_0000_0000_0000;
        proof {
            lemma_f32_limit(self);
        }
        exponent > 1150 || (exponent == 1150 && fraction > 0xF_FFFF_E000_0000)
    }
}

/// `n / unit` rounded to an integer, halves to the even one.
pub open spec fn half_even(n: nat, unit: nat) -> nat {
    if 2 * (n % unit) > unit || (2 * (n % unit) == unit && (n / unit) % 2 == 1) {
        n / unit + 1
    } else {
        n / unit
    }
}

/// The place of the leading bit of a positive integer.
pub open spec fn leading_bit(n: nat) -> nat
    decreases n,
{
    if n <= 1 {
        0
    } else {
        leading_bit(n / 2) + 1
    }
}

proof fn lemma_leading_bit(n: nat, k: nat)
    requires
        pow2(k) <= n < pow2(k + 1),
    ensures
        leading_bit(n) == k,
    decreases k,
{
    lemma2_to64();
    lemma_pow2_unfold(k + 1);
    if k > 0 {
        lemma_pow2_unfold(k);
        lemma_pow2_pos((k - 1) as nat);
        lemma_leading_bit(n / 2, (k - 1) as nat);
    }
}

impl F64 {
    /// The number of an integer below `2^64`, rounded to the 53 bits from the leading one on, halves to the
    /// even pattern. One that rounds up past those bits carries into the exponent.
    pub open spec fn nearest(n: nat) -> F64 {
        let k = leading_bit(n);
        let kept = if k <= 52 {
            n * pow2((52 - k) as nat)
        } else {
            half_even(n, pow2((k - 52) as nat))
        };
        F64 {
            bits: (if n == 0 {
                0
            } else {
                (1022 + k) * 0x10_0000_0000_0000 + kept
            }) as u64,
        }
    }

    /// Whether this is the number of a count: `n` itself up to `2^53`, otherwise at most half a unit in
    /// the last place away.
    pub open spec fn counts(self, n: u64) -> bool {
        &&& self.finite()
        &&& !self.negative()
        &&& n <= 0x20_0000_0000_0000 ==> self.integral() && self.rounded() == n
        &&& n > 0x20_0000_0000_0000 ==> self.power() >= 0 && 2 * (self.rounded() - n) <= pow2(
            self.power() as nat,
        ) && 2 * (n - self.rounded()) <= pow2(self.power() as nat)
    }

    /// The number closest to an unsigned integer: exact up to `2^53`, otherwise at most half a unit in
    /// the last place away.
    pub fn from_count(n: u64) -> (r: F64)
        ensures
            r == F64::nearest(n as nat),
            r.counts(n),
            r.canonical() == r.bits,
    {
        if n == 0 {
            let r = F64 { bits: 0 };
            proof {
                lemma_pow2_pos(1074);
                lemma_pow2_pos(1073);
                lemma_pow2_unfold(1074);
                assert(0nat % pow2(1074) == 0) by (nonlinear_arith)
                    requires
                        pow2(1074) > 0,
                ;
                vstd::arithmetic::div_mod::lemma_basic_div(pow2(1073) as int, pow2(1074) as int);
            }
            return r;
        }
        // The significand scaled into [2^52, 2^53), and the power of two it is to be scaled back by.
        let mut q: u64 = n;
        let mut up: u64 = 0;
        proof {
            lemma2_to64();
        }
        while q < 0x10_0000_0000_0000
            invariant
                0 < q < 0x20_0000_0000_0000 || (up == 0 && q == n && q > 0),
                up <= 52,
                n > 0,
                q == n * pow2(up as nat),
                q >= pow2(up as nat),
            decreases 0x20_0000_0000_0000 - q,
        {
            proof {
                lemma_pow2_unfold((up + 1) as nat);
                lemma2_to64();
                lemma2_to64_rest();
                if up >= 52 {
                    assert(up == 52);
                    assert(pow2(52) == 0x10_0000_0000_0000);
                }
                let a = n as int;
                let p = pow2(up as nat) as int;
                assert(a * (2 * p) == 2 * (a * p)) by (nonlinear_arith);
            }
            q = q * 2;
            up = up + 1;
        }
        if q < 0x20_0000_0000_0000 {
            let r = F64 { bits: (1075 - up) * 0x10_0000_0000_0000 + (q - 0x10_0000_0000_0000) };
            proof {
                lemma_fields(r, 0, (1075 - up) as int, (q - 0x10_0000_0000_0000) as int);
                lemma_scaled_integer(n as nat, up as nat, q as nat);
                lemma_scaled_leading_bit(n as nat, up as nat, q as nat);
                if up == 0 {
                    assert(q * 1 == q);
                    lemma2_to64();
                } else {
                    assert(n <= 0x20_0000_0000_0000) by (nonlinear_arith)
                        requires
                            q == n * pow2(up as nat),
                            q < 0x20_0000_0000_0000,
                            pow2(up as nat) >= 1,
                    ;
                }
            }
            return r;
        }
        Self::from_large_count(n)
    }

    fn from_large_count(n: u64) -> (r: F64)
        requires
            n >= 0x20_0000_0000_0000,
        ensures
            r == F64::nearest(n as nat),
            r.finite(),
            !r.negative(),
            r.power() >= 0,
            n == 0x20_0000_0000_0000 ==> r.rounded() == n,
            2 * (r.rounded() - n) <= pow2(r.power() as nat),
            2 * (n - r.rounded()) <= pow2(r.power() as nat),
    {
        let mut unit: u64 = 2;
        let mut s: u64 = 1;
        proof {
            lemma2_to64();
        }
        while n / unit >= 0x20_0000_0000_0000
            invariant
                1 <= s <= 11,
                unit == pow2(s as nat),
                2 <= unit <= 0x800,
                n / unit >= 0x10_0000_0000_0000,
            decreases 11 - s,
        {
            proof {
                lemma_pow2_unfold((s + 1) as nat);
                lemma2_to64();
                if s >= 11 {
                    assert(unit == 0x800);
                    assert(n / 0x800 < 0x20_0000_0000_0000);
                }
                lemma_halve(n as int, unit as int);
                lemma2_to64();
                if s + 1 < 11 {
                    lemma_pow2_strictly_increases((s + 1) as nat, 11);
                }
            }
            unit = unit * 2;
            s = s + 1;
        }
        let q: u64 = n / unit;
        let rest: u64 = n % unit;
        let half: u64 = unit / 2;
        let up = rest > half || (rest == half && q % 2 == 1);
        let ghost total = n as int;
        let ghost u = unit as int;
        proof {
            vstd::arithmetic::div_mod::lemma_fundamental_div_mod(total, u);
            lemma_pow2_unfold(s as nat);
            lemma_large_leading_bit(n as nat, s as nat, q as nat);
            assert(half_even(n as nat, unit as nat) == (if up {
                q + 1
            } else {
                q as int
            }));
            if n == 0x20_0000_0000_0000 {
                let w = q as int;
                assert(u * w >= u * 0x10_0000_0000_0000) by (nonlinear_arith)
                    requires
                        u > 0,
                        w >= 0x10_0000_0000_0000,
                ;
                assert(unit == 2);
            }
        }
        let mantissa: u64 = if up {
            q + 1
        } else {
            q
        };
        if mantissa == 0x20_0000_0000_0000 {
            let r = F64 { bits: (1076 + s) * 0x10_0000_0000_0000 };
            proof {
                lemma_fields(r, 0, (1076 + s) as int, 0);
                lemma_pow2_unfold((s + 1) as nat);
                assert(0x10_0000_0000_0000 * (2 * u) == 0x20_0000_0000_0000 * u) by (nonlinear_arith);
                lemma_rounding(total, u, q as int, rest as int, mantissa as int);
                assert(r.rounded() == mantissa * u);
            }
            r
        } else {
            let r = F64 { bits: (1075 + s) * 0x10_0000_0000_0000 + (mantissa - 0x10_0000_0000_0000) };
            proof {
                lemma_fields(r, 0, (1075 + s) as int, (mantissa - 0x10_0000_0000_0000) as int);
                lemma_rounding(total, u, q as int, rest as int, mantissa as int);
                assert(r.rounded() == mantissa * u);
            }
            r
        }
    }
}

/// An integer that `up` doublings bring to 53 bits.
proof fn lemma_scaled_leading_bit(n: nat, up: nat, q: nat)
    requires
        q == n * pow2(up),
        up <= 52,
        0x10_0000_0000_0000 <= q < 0x20_0000_0000_0000,
    ensures
        leading_bit(n) == 52 - up,
{
    let k = (52 - up) as nat;
    lemma_pow2_adds(k, up);
    lemma_pow2_adds(k + 1, up);
    lemma_pow2_pos(up);
    lemma2_to64_rest();
    let p = pow2(up) as int;
    let a = pow2(k) as int;
    let b = pow2(k + 1) as int;
    let c = n as int;
    assert(a <= c < b) by (nonlinear_arith)
        requires
            p > 0,
            a * p <= c * p,
            c * p < b * p,
    ;
    lemma_leading_bit(n, k);
}

/// An integer of which 53 bits are left after `s` halvings.
proof fn lemma_large_leading_bit(n: nat, s: nat, q: nat)
    requires
        q == n / pow2(s),
        0x10_0000_0000_0000 <= q < 0x20_0000_0000_0000,
    ensures
        leading_bit(n) == 52 + s,
{
    lemma_pow2_adds(52, s);
    lemma_pow2_adds(53, s);
    lemma_pow2_pos(s);
    lemma2_to64_rest();
    vstd::arithmetic::div_mod::lemma_fundamental_div_mod(n as int, pow2(s) as int);
    let u = pow2(s) as int;
    let c = n as int;
    let d = q as int;
    let rest = c % u;
    assert(0x10_0000_0000_0000 * u <= c < 0x20_0000_0000_0000 * u) by (nonlinear_arith)
        requires
            u > 0,
            c == u * d + rest,
            0 <= rest < u,
            0x10_0000_0000_0000 <= d <= 0x1F_FFFF_FFFF_FFFF,
    ;
    lemma_leading_bit(n, 52 + s);
}

proof fn lemma_halve(n: int, unit: int)
    requires
        unit > 0,
        n >= 0,
        n / unit >= 0x20_0000_0000_0000,
    ensures
        n / (2 * unit) >= 0x10_0000_0000_0000,
{
    vstd::arithmetic::div_mod::lemma_div_denominator(n, unit, 2);
    assert(unit * 2 == 2 * unit);
}

proof fn lemma_rounding(n: int, unit: int, q: int, rest: int, mantissa: int)
    requires
        unit > 0,
        unit % 2 == 0,
        n == unit * q + rest,
        0 <= rest < unit,
        mantissa == q && 2 * rest <= unit || mantissa == q + 1 && 2 * rest >= unit,
    ensures
        2 * (mantissa * unit - n) <= unit,
        2 * (n - mantissa * unit) <= unit,
        rest == 0 ==> mantissa * unit == n,
{
    assert(q * unit == unit * q) by (nonlinear_arith);
    assert((q + 1) * unit == unit * q + unit) by (nonlinear_arith);
}

/// An integer scaled up by a power of two and back is itself.
proof fn lemma_scaled_integer(n: nat, up: nat, q: nat)
    requires
        q == n * pow2(up),
        up <= 52,
    ensures
        q % pow2(up) == 0,
        up > 0 ==> (q + pow2((up - 1) as nat)) / pow2(up) == n,
        up == 0 ==> q * pow2(0) == n,
{
    lemma_pow2_pos(up);
    lemma2_to64();
    let p = pow2(up) as int;
    assert(n * p == p * n) by (nonlinear_arith);
    assert(pow2(0) == 1);
    if up == 0 {
        assert(q * 1 == n) by (nonlinear_arith)
            requires
                q == n * 1,
        ;
    }
    vstd::arithmetic::div_mod::lemma_mod_multiples_basic(n as int, p);
    if up > 0 {
        lemma_pow2_unfold(up);
        let h = pow2((up - 1) as nat) as int;
        vstd::arithmetic::div_mod::lemma_fundamental_div_mod_converse(n * p + h, p, n as int, h);
    }
}

/// The largest finite binary32 number in units of `2^-1074`.
pub open spec fn f32_max_magnitude() -> nat {
    0xFF_FFFF * pow2(1178)
}

proof fn lemma_pow2_at_53()
    ensures
        pow2(53) == 0x20_0000_0000_0000,
{
    lemma2_to64();
    lemma2_to64_rest();
}

proof fn lemma_two_to_bound(n: nat)
    requires
        n < 64,
    ensures
        pow2(n) <= 0x8000_0000_0000_0000,
        n <= 53 ==> pow2(n) <= 0x20_0000_0000_0000,
{
    lemma2_to64();
    lemma2_to64_rest();
    if n < 63 {
        lemma_pow2_strictly_increases(n, 63);
    }
    if n < 53 {
        lemma_pow2_strictly_increases(n, 53);
    }
}

proof fn lemma_shift_below_13(n: nat)
    requires
        n < 13,
    ensures
        0 < pow2(n) <= 0x1000,
{
    lemma2_to64();
    lemma_pow2_pos(n);
    if n < 12 {
        lemma_pow2_strictly_increases(n, 12);
    }
}

/// A normalised significand shifted left by 13 or more is past `2^64`.
proof fn lemma_large_magnitude(mantissa: nat, shift: nat)
    requires
        mantissa >= 0x10_0000_0000_0000,
        shift >= 13,
    ensures
        mantissa * pow2(shift) > 0x1_0000_0000_0000_0000,
{
    lemma2_to64();
    if shift > 13 {
        lemma_pow2_strictly_increases(13, shift);
    }
    assert(mantissa * pow2(shift) >= 0x10_0000_0000_0000 * 0x2000) by (nonlinear_arith)
        requires
            mantissa >= 0x10_0000_0000_0000,
            pow2(shift) >= 0x2000,
    ;
}

/// A significand shifted right by 55 or more rounds to zero.
proof fn lemma_tiny_magnitude(mantissa: nat, shift: nat)
    requires
        mantissa < 0x20_0000_0000_0000,
        shift >= 55,
    ensures
        (mantissa + pow2((shift - 1) as nat)) / pow2(shift) == 0,
{
    lemma_pow2_at_53();
    lemma_pow2_strictly_increases(53, (shift - 1) as nat);
    lemma_pow2_unfold(shift);
    vstd::arithmetic::div_mod::lemma_basic_div(
        (mantissa + pow2((shift - 1) as nat)) as int,
        pow2(shift) as int,
    );
}

proof fn lemma_f32_limit(f: F64)
    requires
        f.finite(),
    ensures
        (f.magnitude() > f32_max_magnitude()) == (f.exponent() > 1150 || (f.exponent() == 1150
            && f.fraction() > 0xF_FFFF_E000_0000)),
{
    lemma2_to64();
    // (2^24 - 1) · 2^1178 == (2^53 - 2^29) · 2^1149
    lemma_pow2_adds(29, 1149);
    lemma2_to64_rest();
    assert(pow2(29) == 0x2000_0000);
    assert(f32_max_magnitude() == 0x1F_FFFF_E000_0000 * pow2(1149)) by (nonlinear_arith)
        requires
            f32_max_magnitude() == 0xFF_FFFF * pow2(1178),
            pow2(1178) == 0x2000_0000 * pow2(1149),
    ;
    lemma_pow2_pos(1149);
    let n = (f.power() + 1074) as nat;
    if f.exponent() > 1150 {
        assert(n >= 1150);
        lemma_pow2_unfold(1150);
        if n > 1150 {
            lemma_pow2_strictly_increases(1150, n);
        }
        assert(f.mantissa() * pow2(n) > 0x1F_FFFF_E000_0000 * pow2(1149)) by (nonlinear_arith)
            requires
                f.mantissa() >= 0x10_0000_0000_0000,
                pow2(n) >= 2 * pow2(1149),
                pow2(1149) > 0,
        ;
    } else if f.exponent() < 1150 {
        lemma_pow2_unfold(1149);
        if n < 1148 {
            lemma_pow2_strictly_increases(n, 1148);
        }
        assert(f.mantissa() * pow2(n) <= 0x1F_FFFF_E000_0000 * pow2(1149)) by (nonlinear_arith)
            requires
                f.mantissa() < 0x20_0000_0000_0000,
                2 * pow2(n) <= pow2(1149),
                pow2(1149) > 0,
        ;
    } else {
        let p = pow2(1149);
        let m = f.mantissa();
        assert((m * p > 0x1F_FFFF_E000_0000 * p) == (m > 0x1F_FFFF_E000_0000)) by (nonlinear_arith)
            requires
                p > 0,
        ;
    }
}

/// `2^n`.
pub fn two_to(n: u32) -> (r: u64)
    requires
        n < 64,
    ensures
        r == pow2(n as nat),
        r > 0,
{
    let mut r: u64 = 1;
    let mut i: u32 = 0;
    proof {
        lemma2_to64();
    }
    while i < n
        invariant
            i <= n < 64,
            r == pow2(i as nat),
            r > 0,
        decreases n - i,
    {
        proof {
            lemma_pow2_unfold((i + 1) as nat);
            lemma_two_to_bound((i + 1) as nat);
        }
        r = r * 2;
        i = i + 1;
    }
    r
}

impl F32 {
    pub open spec fn exponent(self) -> int {
        (self.bits as int / 0x80_0000) % 0x100
    }

    pub open spec fn fraction(self) -> int {
        self.bits as int % 0x80_0000
    }

    pub open spec fn negative(self) -> bool {
        self.bits as int / 0x8000_0000 == 1
    }

    /// Neither an infinity nor a NaN.
    pub open spec fn finite(self) -> bool {
        self.exponent() != 0xFF
    }

    pub open spec fn mantissa(self) -> nat {
        if self.exponent() == 0 {
            self.fraction() as nat
        } else {
            (self.fraction() + 0x80_0000) as nat
        }
    }

    pub open spec fn power(self) -> int {
        if self.exponent() == 0 {
            -149
        } else {
            self.exponent() - 150
        }
    }

    /// The magnitude in units of the smallest binary64 subnormal, `2^-1074`.
    pub open spec fn magnitude(self) -> nat {
        self.mantissa() * pow2((self.power() + 1074) as nat)
    }

    /// Whether the number is neither an infinity nor a NaN.
    pub fn is_finite(self) -> (r: bool)
        ensures
            r == self.finite(),
    {
        (self.bits / 0x80_0000) % 0x100 != 0xFF
    }

    /// The same number as a binary64: widening a finite number is exact.
    pub fn widen(self) -> (r: F64)
        requires
            self.finite(),
        ensures
            r.finite(),
            r.negative() == self.negative(),
            r.magnitude() == self.magnitude(),
    {
        let sign: u64 = (self.bits / 0x8000_0000) as u64;
        let exponent: u64 = ((self.bits / 0x80_0000) % 0x100) as u64;
        let fraction: u64 = (self.bits % 0x80_0000) as u64;
        if exponent == 0 {
            if fraction == 0 {
                let r = F64 { bits: sign * 0x8000_0000_0000_0000 };
                proof {
                    lemma_fields(r, sign as int, 0, 0);
                    assert(0nat * pow2(0) == 0nat * pow2(925)) by (nonlinear_arith);
                }
                return r;
            }
            let mut m: u64 = fraction;
            let mut k: u64 = 0;
            proof {
                lemma2_to64();
                assert(fraction * 1 == fraction);
            }
            while m < 0x80_0000
                invariant
                    0 < m < 0x100_0000,
                    0 < fraction < 0x80_0000,
                    k <= 23,
                    m == fraction * pow2(k as nat),
                decreases 0x100_0000 - m,
            {
                proof {
                    lemma_pow2_unfold((k + 1) as nat);
                    let f = fraction as int;
                    let p = pow2(k as nat) as int;
                    assert(f * (2 * p) == 2 * (f * p)) by (nonlinear_arith);
                    if k >= 23 {
                        lemma2_to64();
                        if k > 23 {
                            lemma_pow2_strictly_increases(23, k as nat);
                        }
                        assert(f * p >= 0x80_0000) by (nonlinear_arith)
                            requires
                                f >= 1,
                                p >= 0x80_0000,
                        ;
                    }
                }
                m = m * 2;
                k = k + 1;
            }
            let r = F64 {
                bits: sign * 0x8000_0000_0000_0000 + (897 - k) * 0x10_0000_0000_0000 + (m
                    - 0x80_0000) * 0x2000_0000,
            };
            proof {
                lemma_fields(r, sign as int, (897 - k) as int, ((m - 0x80_0000) * 0x2000_0000) as int);
                lemma_widen_subnormal(fraction as nat, m as nat, k as nat);
            }
            return r;
        }
        let r = F64 {
            bits: sign * 0x8000_0000_0000_0000 + (exponent + 896) * 0x10_0000_0000_0000 + fraction
                * 0x2000_0000,
        };
        proof {
            lemma_fields(r, sign as int, (exponent + 896) as int, (fraction * 0x2000_0000) as int);
            lemma_widen_normal(fraction as nat, exponent as nat);
        }
        r
    }
}

/// A pattern assembled from its three fields has those fields.
proof fn lemma_fields(f: F64, sign: int, exponent: int, fraction: int)
    requires
        0 <= sign <= 1,
        0 <= exponent < 0x800,
        0 <= fraction < 0x10_0000_0000_0000,
        f.bits == sign * 0x8000_0000_0000_0000 + exponent * 0x10_0000_0000_0000 + fraction,
    ensures
        f.negative() == (sign == 1),
        f.exponent() == exponent,
        f.fraction() == fraction,
{
    let b = f.bits as int;
    assert(b / 0x10_0000_0000_0000 == sign * 0x800 + exponent);
    assert((sign * 0x800 + exponent) % 0x800 == exponent);
}

proof fn lemma_widen_normal(fraction: nat, exponent: nat)
    requires
        fraction < 0x80_0000,
        0 < exponent < 0xFF,
    ensures
        (fraction * 0x2000_0000 + 0x10_0000_0000_0000) * pow2((exponent + 895) as nat) == (fraction
            + 0x80_0000) * pow2((exponent + 924) as nat),
{
    lemma2_to64();
    lemma_pow2_adds(29, (exponent + 895) as nat);
    let p = pow2((exponent + 895) as nat);
    assert(pow2(29) == 0x2000_0000);
    assert((fraction * 0x2000_0000 + 0x10_0000_0000_0000) * p == (fraction + 0x80_0000) * (
    0x2000_0000 * p)) by (nonlinear_arith);
}

proof fn lemma_widen_subnormal(fraction: nat, m: nat, k: nat)
    requires
        m == fraction * pow2(k),
        0x80_0000 <= m < 0x100_0000,
        k <= 23,
    ensures
        ((m - 0x80_0000) * 0x2000_0000 + 0x10_0000_0000_0000) * pow2((896 - k) as nat) == fraction
            * pow2(925),
{
    lemma2_to64();
    lemma_pow2_adds(29, (896 - k) as nat);
    lemma_pow2_adds(k, (925 - k) as nat);
    let p = pow2((896 - k) as nat);
    let q = pow2(k);
    assert(pow2(29) == 0x2000_0000);
    assert(((m - 0x80_0000) * 0x2000_0000 + 0x10_0000_0000_0000) * p == m * (0x2000_0000 * p))
        by (nonlinear_arith);
    let s = pow2((925 - k) as nat);
    assert((fraction * q) * s == fraction * (q * s)) by (nonlinear_arith);
}

// ---- from binary64 to binary32 ----

impl F64 {
    /// How far apart the binary32 numbers around this one lie, in units of `2^-1074`.
    pub open spec fn single_spacing(self) -> nat {
        pow2(
            (if self.exponent() > 897 {
                self.exponent() + 28
            } else {
                925
            }) as nat,
        )
    }

    /// `s` is this number rounded to a binary32: of the same sign, a multiple of the spacing, at most half
    /// a spacing away, and of two such numbers the one with the even pattern.
    pub open spec fn narrows_to(self, s: F32) -> bool {
        let spacing = self.single_spacing();
        let off = s.magnitude() - self.magnitude();
        &&& s.finite()
        &&& s.negative() == self.negative()
        &&& s.magnitude() % spacing == 0
        &&& -(spacing as int) <= 2 * off <= spacing
        &&& 2 * off == spacing || 2 * off == -(spacing as int) ==> s.bits % 2 == 0
    }

    /// How many of the lowest bits of the significand a binary32 has no room for.
    pub open spec fn dropped_bits(self) -> nat {
        (if self.exponent() == 0 {
            925
        } else if self.exponent() < 897 {
            926 - self.exponent()
        } else {
            29
        }) as nat
    }

    /// The pattern of the number rounded to a binary32, for a number that is no larger than the largest
    /// of those. A significand that rounds up past its bits carries into the exponent.
    pub open spec fn single(self) -> F32 {
        let kept = half_even(self.mantissa(), pow2(self.dropped_bits()));
        let base = if self.exponent() > 897 {
            self.exponent() - 897
        } else {
            0
        };
        let sign: int = if self.negative() {
            1
        } else {
            0
        };
        F32 { bits: (sign * 0x8000_0000 + base * 0x80_0000 + kept) as u32 }
    }

    /// The number rounded to a binary32.
    pub fn narrow(self) -> (r: F32)
        requires
            self.finite(),
            self.magnitude() <= f32_max_magnitude(),
        ensures
            r == self.single(),
            self.narrows_to(r),
    {
        let sign: u32 = (self.bits / 0x8000_0000_0000_0000) as u32;
        let exponent: u64 = (self.bits / 0x10_0000_0000_0000) % 0x800;
        let fraction: u64 = self.bits % 0x10_0000_0000_0000;
        proof {
            lemma_f32_limit(self);
        }
        let mantissa: u64 = if exponent == 0 {
            fraction
        } else {
            fraction + 0x10_0000_0000_0000
        };
        // The significand loses its `shift` lowest bits.
        let base: u32 = if exponent > 897 {
            (exponent - 897) as u32
        } else {
            0
        };
        let shift: u32 = if exponent == 0 {
            925
        } else if exponent < 897 {
            (926 - exponent) as u32
        } else {
            29
        };
        proof {
            the_single_is_the_number_rounded(self);
            lemma_kept(self);
        }
        let kept: u32 = if shift >= 55 {
            0
        } else {
            let unit: u64 = two_to(shift);
            let half: u64 = two_to(shift - 1);
            proof {
                lemma_pow2_unfold(shift as nat);
            }
            let whole: u64 = mantissa / unit;
            let rest: u64 = mantissa % unit;
            if rest > half || (rest == half && whole % 2 == 1) {
                (whole + 1) as u32
            } else {
                whole as u32
            }
        };
        F32 { bits: sign * 0x8000_0000 + (base * 0x80_0000 + kept) }
    }
}

/// What is kept of a significand fits the room a binary32 has for it.
proof fn lemma_kept(f: F64)
    requires
        f.finite(),
        f.magnitude() <= f32_max_magnitude(),
    ensures
        ({
            let kept = half_even(f.mantissa(), pow2(f.dropped_bits()));
            &&& f.dropped_bits() >= 55 ==> kept == 0
            &&& f.mantissa() / pow2(f.dropped_bits()) < 0x100_0000
            &&& f.exponent() <= 1150
            &&& f.exponent() < 897 ==> kept <= 0x80_0000
            &&& f.exponent() >= 897 ==> 0x80_0000 <= kept <= 0x100_0000
            &&& f.exponent() == 1150 ==> kept < 0x100_0000
        }),
{
    let shift = f.dropped_bits();
    let m = f.mantissa() as int;
    lemma_f32_limit(f);
    lemma2_to64();
    lemma_pow2_pos(shift);
    if shift >= 55 {
        lemma_pow2_at_53();
        lemma_pow2_strictly_increases(53, (shift - 1) as nat);
        lemma_pow2_unfold(shift);
        vstd::arithmetic::div_mod::lemma_basic_div(m, pow2(shift) as int);
        vstd::arithmetic::div_mod::lemma_small_mod(f.mantissa(), pow2(shift));
    } else {
        let u = pow2(shift) as int;
        if shift > 29 {
            lemma_pow2_unfold(30);
            if shift > 30 {
                lemma_pow2_strictly_increases(30, shift);
            }
        }
        vstd::arithmetic::div_mod::lemma_fundamental_div_mod(m, u);
        let w = m / u;
        assert(shift > 29 ==> w < 0x80_0000) by (nonlinear_arith)
            requires
                u * w <= m,
                m < 0x20_0000_0000_0000,
                shift > 29 ==> u >= 0x4000_0000,
        ;
        if shift == 29 {
            assert(u == 0x2000_0000);
        }
    }
}

/// The pattern that a number rounds to is the number rounded: at most half a spacing away, halves to the
/// even pattern.
pub proof fn the_single_is_the_number_rounded(f: F64)
    requires
        f.finite(),
        f.magnitude() <= f32_max_magnitude(),
    ensures
        f.narrows_to(f.single()),
{
    let shift = f.dropped_bits();
    let unit = pow2(shift);
    let kept = half_even(f.mantissa(), unit);
    let base: int = if f.exponent() > 897 {
        f.exponent() - 897
    } else {
        0
    };
    lemma_kept(f);
    lemma_pow2_pos(shift);
    vstd::arithmetic::div_mod::lemma_fundamental_div_mod(f.mantissa() as int, unit as int);
    lemma_dropped(
        f,
        f.mantissa(),
        shift,
        f.mantissa() / unit,
        f.mantissa() % unit,
        kept,
    );
    let r = f.single();
    lemma_single_fields(
        r,
        if f.negative() {
            1
        } else {
            0
        },
        base,
        kept as int,
    );
    lemma_pow2_unfold((base + 926) as nat);
    let p = pow2((base + 925) as nat);
    assert(0x80_0000 * (2 * p) == 0x100_0000 * p) by (nonlinear_arith);
    assert(r.magnitude() == kept * p);
    assert(p == f.single_spacing());
    lemma_pow2_pos((base + 925) as nat);
    vstd::arithmetic::div_mod::lemma_mod_multiples_basic(kept as int, p as int);
}

/// What dropping the lowest `shift` bits of a significand and rounding costs.
proof fn lemma_dropped(f: F64, mantissa: nat, shift: nat, whole: nat, rest: nat, kept: nat)
    requires
        f.finite(),
        mantissa == f.mantissa(),
        shift == f.dropped_bits(),
        mantissa == pow2(shift) * whole + rest,
        rest < pow2(shift),
        kept == whole && 2 * rest <= pow2(shift) || kept == whole + 1 && 2 * rest >= pow2(shift),
        2 * rest == pow2(shift) ==> kept % 2 == 0,
    ensures
        ({
            let spacing = f.single_spacing() as int;
            let off = kept * spacing - f.magnitude();
            &&& -spacing <= 2 * off <= spacing
            &&& 2 * off == spacing || 2 * off == -spacing ==> kept % 2 == 0
        }),
{
    let k = (f.power() + 1074) as nat;
    lemma_pow2_adds(shift, k);
    lemma_pow2_pos(k);
    let u = pow2(shift) as int;
    let t = pow2(k) as int;
    let w = whole as int;
    let r = rest as int;
    assert(f.single_spacing() == u * t);
    assert((u * w + r) * t == w * (u * t) + r * t) by (nonlinear_arith);
    assert((w + 1) * (u * t) == w * (u * t) + u * t) by (nonlinear_arith);
    assert(2 * r <= u ==> 2 * (r * t) <= u * t) by (nonlinear_arith)
        requires
            t > 0,
    ;
    assert(2 * r >= u ==> 2 * (r * t) >= u * t) by (nonlinear_arith)
        requires
            t > 0,
    ;
    assert(2 * (r * t) == u * t ==> 2 * r == u) by (nonlinear_arith)
        requires
            t > 0,
    ;
    assert(0 <= r * t < u * t) by (nonlinear_arith)
        requires
            t > 0,
            0 <= r < u,
    ;
}

/// A binary32 pattern assembled from its sign, an exponent and a significand that keeps its leading
/// bit. A significand that was rounded up to the next power of two carries into the exponent.
proof fn lemma_single_fields(f: F32, sign: int, base: int, kept: int)
    requires
        0 <= sign <= 1,
        0 <= base <= 253,
        0 <= kept <= 0x100_0000,
        base > 0 ==> kept >= 0x80_0000,
        base == 253 ==> kept < 0x100_0000,
        f.bits == sign * 0x8000_0000 + base * 0x80_0000 + kept,
    ensures
        f.negative() == (sign == 1),
        f.finite(),
        f.bits as int % 2 == kept % 2,
        kept == 0x100_0000 ==> f.mantissa() == 0x80_0000 && f.power() + 1074 == base + 926,
        kept < 0x100_0000 ==> f.mantissa() == kept && f.power() + 1074 == base + 925,
{
    let b = f.bits as int;
    let carried: int = if kept == 0x100_0000 {
        2
    } else if kept >= 0x80_0000 {
        1
    } else {
        0
    };
    let fraction = kept - carried * 0x80_0000;
    assert(b == sign * 0x8000_0000 + (base + carried) * 0x80_0000 + fraction);
    assert(0 <= fraction < 0x80_0000);
    assert(b / 0x80_0000 == sign * 0x100 + base + carried);
    assert((sign * 0x100 + base + carried) % 0x100 == base + carried);
}

/// A binary32 number with a smaller exponent field has a smaller magnitude.
proof fn lemma_single_order(f: F32, g: F32)
    requires
        f.exponent() < g.exponent(),
    ensures
        f.magnitude() < g.magnitude(),
{
    let p = (f.power() + 1074) as nat;
    let q = (g.power() + 1074) as nat;
    lemma_pow2_pos(p);
    if p < q {
        lemma_pow2_unfold(q);
        if p < q - 1 {
            lemma_pow2_strictly_increases(p, (q - 1) as nat);
        }
    }
    let m = f.mantissa() as int;
    let n = g.mantissa() as int;
    let a = pow2(p) as int;
    let b = pow2(q) as int;
    assert(m * a < n * b) by (nonlinear_arith)
        requires
            a > 0,
            0x80_0000 <= n,
            (a == b && 0 <= m < 0x80_0000) || (2 * a <= b && 0 <= m < 0x100_0000),
    ;
}

/// A finite binary32 number is known by its sign and its magnitude.
proof fn lemma_single_is_known(f: F32, g: F32)
    requires
        f.negative() == g.negative(),
        f.magnitude() == g.magnitude(),
    ensures
        f == g,
{
    if f.exponent() < g.exponent() {
        lemma_single_order(f, g);
    }
    if g.exponent() < f.exponent() {
        lemma_single_order(g, f);
    }
    let p = (f.power() + 1074) as nat;
    lemma_pow2_pos(p);
    let m = f.mantissa() as int;
    let n = g.mantissa() as int;
    let a = pow2(p) as int;
    assert(m == n) by (nonlinear_arith)
        requires
            a > 0,
            m * a == n * a,
    ;
    assert(f.fraction() == g.fraction());
    assert(f.bits as int / 0x80_0000 == (f.bits as int / 0x8000_0000) * 0x100 + f.exponent());
    assert(g.bits as int / 0x80_0000 == (g.bits as int / 0x8000_0000) * 0x100 + g.exponent());
}

/// Rounding a binary64 number that is a binary32 number gives that number back: what widening made,
/// narrowing undoes.
pub proof fn narrowing_undoes_widening(f: F32, wide: F64, back: F32)
    requires
        f.finite(),
        wide.finite(),
        wide.negative() == f.negative(),
        wide.magnitude() == f.magnitude(),
        wide.narrows_to(back),
    ensures
        back == f,
{
    let spacing = wide.single_spacing() as int;
    let e: nat = (if wide.exponent() > 897 {
        wide.exponent() + 28
    } else {
        925
    }) as nat;
    let p = (f.power() + 1074) as nat;
    lemma_pow2_pos(e);
    lemma_pow2_pos(p);
    if p < e {
        // Then the magnitude would reach past what 24 bits at that exponent carry.
        lemma2_to64();
        let k = (wide.power() + 1074) as nat;
        lemma_pow2_adds(24, p);
        if p + 24 < 52 + k {
            lemma_pow2_strictly_increases(p + 24, 52 + k);
        }
        lemma2_to64_rest();
        lemma_pow2_adds(52, k);
        let a = pow2(p) as int;
        let b = pow2(k) as int;
        let m = f.mantissa() as int;
        let n = wide.mantissa() as int;
        assert(m * a < n * b) by (nonlinear_arith)
            requires
                a > 0,
                b > 0,
                0 <= m < 0x100_0000,
                n >= 0x10_0000_0000_0000,
                0x100_0000 * a <= 0x10_0000_0000_0000 * b,
        ;
    }
    lemma_pow2_adds((p - e) as nat, e);
    let m = f.mantissa() as int;
    let c = pow2((p - e) as nat) as int;
    assert(m * (c * spacing) == (m * c) * spacing) by (nonlinear_arith);
    vstd::arithmetic::div_mod::lemma_fundamental_div_mod(back.magnitude() as int, spacing);
    let q = back.magnitude() as int / spacing;
    let d = m * c;
    assert(q == d) by (nonlinear_arith)
        requires
            spacing > 0,
            -spacing <= 2 * (spacing * q - d * spacing) <= spacing,
    ;
    assert(spacing * q == d * spacing) by (nonlinear_arith)
        requires
            q == d,
    ;
    lemma_single_is_known(back, f);
}

/// No finite binary32 number is past the largest one.
pub proof fn a_single_stays_in_range(f: F32)
    requires
        f.finite(),
    ensures
        f.magnitude() <= f32_max_magnitude(),
{
    let p = (f.power() + 1074) as nat;
    if p < 1178 {
        lemma_pow2_strictly_increases(p, 1178);
    }
    let m = f.mantissa() as int;
    let a = pow2(p) as int;
    let b = pow2(1178) as int;
    assert(m * a <= 0xFF_FFFF * b) by (nonlinear_arith)
        requires
            0 <= m <= 0xFF_FFFF,
            0 <= a <= b,
    ;
}

proof fn lemma_units_of(m: nat, p: int)
    requires
        -1074 <= p,
    ensures
        p >= 0 ==> m * pow2(p as nat) * pow2(1074) == m * pow2((p + 1074) as nat),
        p < 0 ==> pow2((-p) as nat) * pow2((p + 1074) as nat) == pow2(1074),
{
    if p >= 0 {
        lemma_pow2_adds(p as nat, 1074);
        let a = m as int;
        let b = pow2(p as nat) as int;
        let c = pow2(1074) as int;
        assert(a * b * c == a * (b * c)) by (nonlinear_arith);
    } else {
        lemma_pow2_adds((-p) as nat, (p + 1074) as nat);
    }
}

/// A number is rounded to the closest integer, a half away from zero, and keeps its sign; it has no
/// fraction exactly when that integer is the number. Magnitudes are counted in units of `2^-1074`.
pub proof fn a_number_is_rounded_to_the_closest_integer(f: F64)
    requires
        f.finite(),
    ensures
        ({
            let one = pow2(1074) as int;
            let r = f.rounded_magnitude() as int;
            let m = f.magnitude() as int;
            &&& 2 * (r * one - m) <= one
            &&& 2 * (m - r * one) < one
            &&& f.integral() <==> r * one == m
        }),
        f.negative() ==> f.rounded() == -f.rounded_magnitude(),
        !f.negative() ==> f.rounded() == f.rounded_magnitude(),
{
    let p = f.power();
    let m = f.mantissa();
    let one = pow2(1074) as int;
    lemma_units_of(m, p);
    lemma_pow2_pos(1074);
    if p >= 0 {
        assert(f.rounded_magnitude() as int * one == f.magnitude());
    } else {
        let q = (-p) as nat;
        let d = pow2(q) as int;
        let h = pow2((q - 1) as nat) as int;
        let s = pow2((p + 1074) as nat) as int;
        let a = m as int;
        lemma_pow2_pos(q);
        lemma_pow2_pos((q - 1) as nat);
        lemma_pow2_pos((p + 1074) as nat);
        lemma_pow2_unfold(q);
        assert(d == 2 * h);
        let r = (a + h) / d;
        vstd::arithmetic::div_mod::lemma_fundamental_div_mod(a + h, d);
        vstd::arithmetic::div_mod::lemma_mod_bound(a + h, d);
        assert(f.rounded_magnitude() == r);
        let rd = r * d;
        assert(d * r == rd) by (nonlinear_arith)
            requires
                rd == r * d,
        ;
        assert(rd - a <= h && a - rd < h);
        assert(r * one == rd * s) by (nonlinear_arith)
            requires
                one == d * s,
                rd == r * d,
        ;
        assert(2 * (rd * s - a * s) <= one) by (nonlinear_arith)
            requires
                rd - a <= h,
                d == 2 * h,
                one == d * s,
                s > 0,
        ;
        assert(2 * (a * s - rd * s) < one) by (nonlinear_arith)
            requires
                a - rd < h,
                d == 2 * h,
                one == d * s,
                s > 0,
        ;
        vstd::arithmetic::div_mod::lemma_fundamental_div_mod(a, d);
        vstd::arithmetic::div_mod::lemma_mod_bound(a, d);
        let t = a / d;
        let td = t * d;
        assert(d * t == td) by (nonlinear_arith)
            requires
                td == t * d,
        ;
        if a % d == 0 {
            assert(a == td);
            assert(r == t) by (nonlinear_arith)
                requires
                    a == t * d,
                    r * d - a <= h,
                    a - r * d < h,
                    d == 2 * h,
                    h > 0,
            ;
            assert(r * one == a * s);
        }
        if r * one == a * s {
            assert(rd == a) by (nonlinear_arith)
                requires
                    rd * s == a * s,
                    s > 0,
            ;
            vstd::arithmetic::div_mod::lemma_mod_multiples_basic(r, d);
            assert(a % d == 0);
        }
    }
}

/// Two patterns stand for one number exactly when they are equal, or both are a zero, of whichever sign.
pub proof fn one_number_has_one_pattern_but_for_zero(a: F64, b: F64)
    ensures
        a.canonical() == b.canonical() <==> a.bits == b.bits || ((a.bits == 0 || a.bits
            == 0x8000_0000_0000_0000) && (b.bits == 0 || b.bits == 0x8000_0000_0000_0000)),
{
}

} // verus!
