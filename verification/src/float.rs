//! Single-precision numbers, held as their bits.
//!
//! The resize trigger is a single-precision fraction, and it is compared with a single-precision
//! quotient of two sizes. Both are worked out here on the bits, so that what the comparison
//! decides can be stated over the numbers that the bits stand for.

use vstd::arithmetic::power2::*;
use vstd::prelude::*;

verus! {

/// An IEEE 754 binary32 number, held as its bits.
#[derive(Clone, Copy, Debug)]
pub struct Binary32 {
    pub bits: u32,
}

/// The number that a sign-less bit pattern stands for, in units of 2^-149, the smallest positive
/// binary32 number. Infinity is given the number next above the largest finite one.
pub open spec fn magnitude_value(magnitude: nat) -> nat {
    let exponent = magnitude / 0x80_0000;
    let fraction = magnitude % 0x80_0000;
    if exponent == 0 {
        fraction
    } else {
        (0x80_0000 + fraction) * pow2((exponent - 1) as nat)
    }
}

/// How far apart two integers are.
pub open spec fn distance(a: int, b: int) -> int {
    if a <= b {
        b - a
    } else {
        a - b
    }
}

impl Binary32 {
    /// The bits without the sign bit.
    pub open spec fn magnitude(self) -> nat {
        (self.bits % 0x8000_0000) as nat
    }

    /// Whether the sign bit is set.
    pub open spec fn is_negative(self) -> bool {
        self.bits >= 0x8000_0000
    }

    /// Whether this is not a number.
    pub open spec fn is_nan(self) -> bool {
        self.magnitude() > 0x7f80_0000
    }

    /// Whether this is a number and not an infinity.
    pub open spec fn is_finite(self) -> bool {
        self.magnitude() < 0x7f80_0000
    }

    /// The number this stands for, in units of 2^-149.
    pub open spec fn value(self) -> int {
        if self.is_negative() {
            -(magnitude_value(self.magnitude()) as int)
        } else {
            magnitude_value(self.magnitude()) as int
        }
    }

    /// How far this is from the fraction `num / den`, in units of 2^-149 / `den`.
    pub open spec fn error_to(self, num: int, den: int) -> int {
        distance(self.value() * den, num * pow2(149))
    }

    /// Whether this is the fraction `num / den` rounded to nearest, ties to even: no finite number
    /// is nearer, and where another is just as near, the last bit of this one is zero.
    pub open spec fn is_nearest(self, num: int, den: int) -> bool {
        &&& self.is_finite()
        &&& !self.is_negative()
        &&& forall|other: Binary32|
            other.is_finite() ==> {
                &&& self.error_to(num, den) <= #[trigger] other.error_to(num, den)
                &&& self.error_to(num, den) == other.error_to(num, den) && other.value()
                    != self.value() ==> self.bits % 2 == 0
            }
    }
}

/// One step up in the bits is one unit in the last place up in the number.
proof fn lemma_magnitude_step(m: nat)
    ensures
        magnitude_value(m + 1) == magnitude_value(m) + (if m / 0x80_0000 == 0 {
            1
        } else {
            pow2((m / 0x80_0000 - 1) as nat)
        }),
        magnitude_value(m + 1) > magnitude_value(m),
{
    let e = m / 0x80_0000;
    let f = m % 0x80_0000;
    lemma2_to64();
    if e == 0 {
        if f + 1 == 0x80_0000 {
            assert((m + 1) / 0x80_0000 == 1);
            assert((m + 1) % 0x80_0000 == 0);
        } else {
            assert((m + 1) / 0x80_0000 == 0);
        }
    } else {
        let p = pow2((e - 1) as nat);
        lemma_pow2_pos((e - 1) as nat);
        if f + 1 == 0x80_0000 {
            assert((m + 1) / 0x80_0000 == e + 1);
            assert((m + 1) % 0x80_0000 == 0);
            lemma_pow2_unfold(e);
            assert(pow2(e) == 2 * p);
            assert(0x80_0000 * (2 * p) == (0x80_0000 + f) * p + p) by (nonlinear_arith)
                requires
                    f + 1 == 0x80_0000,
            ;
        } else {
            assert((m + 1) / 0x80_0000 == e);
            assert((m + 1) % 0x80_0000 == f + 1);
            assert((0x80_0000 + (f + 1)) * p == (0x80_0000 + f) * p + p) by (nonlinear_arith);
        }
    }
}

/// The larger bits without sign stand for the larger number.
proof fn lemma_magnitude_order(a: nat, b: nat)
    ensures
        a < b <==> magnitude_value(a) < magnitude_value(b),
        a == b <==> magnitude_value(a) == magnitude_value(b),
    decreases (if a < b { b - a } else { a - b }),
{
    if a < b {
        lemma_magnitude_step((b - 1) as nat);
        lemma_magnitude_order(a, (b - 1) as nat);
    } else if b < a {
        lemma_magnitude_step((a - 1) as nat);
        lemma_magnitude_order((a - 1) as nat, b);
    }
}

/// Equal as numbers: the two zeros are equal, and what is not a number equals nothing.
impl PartialEq for Binary32 {
    fn eq(&self, other: &Binary32) -> (equal: bool) {
        let a: u32 = self.bits % 0x8000_0000;
        let b: u32 = other.bits % 0x8000_0000;
        proof {
            lemma_magnitude_order(a as nat, b as nat);
            lemma_magnitude_order(0, a as nat);
            lemma_magnitude_order(0, b as nat);
            assert(magnitude_value(0) == 0);
        }
        a <= 0x7f80_0000 && a == b && (self.bits == other.bits || a == 0)
    }
}

impl vstd::std_specs::cmp::PartialEqSpecImpl for Binary32 {
    open spec fn obeys_eq_spec() -> bool {
        true
    }

    open spec fn eq_spec(&self, other: &Binary32) -> bool {
        !self.is_nan() && !other.is_nan() && self.value() == other.value()
    }
}

impl Binary32 {
    /// Whether this is a number greater than the other number, as `>` has it: false where either
    /// is not a number, and the two zeros are equal.
    pub fn gt(&self, other: &Binary32) -> (greater: bool)
        ensures
            greater == (!self.is_nan() && !other.is_nan() && self.value() > other.value()),
    {
        let a: u32 = self.bits % 0x8000_0000;
        let b: u32 = other.bits % 0x8000_0000;
        proof {
            lemma_magnitude_order(a as nat, b as nat);
            lemma_magnitude_order(b as nat, a as nat);
            lemma_magnitude_order(0, a as nat);
            lemma_magnitude_order(0, b as nat);
            assert(magnitude_value(0) == 0);
        }
        if a > 0x7f80_0000 || b > 0x7f80_0000 {
            return false;
        }
        let a_negative = self.bits >= 0x8000_0000;
        let b_negative = other.bits >= 0x8000_0000;
        if a_negative {
            b_negative && a < b
        } else {
            if b_negative {
                a != 0 || b != 0
            } else {
                a > b
            }
        }
    }

    /// Whether this is a number from 0 to 1, both included.
    pub fn is_in_unit_range(&self) -> (inside: bool)
        ensures
            inside == (!self.is_nan() && 0 <= self.value() <= pow2(149)),
    {
        let magnitude: u32 = self.bits % 0x8000_0000;
        proof {
            lemma_magnitude_order(magnitude as nat, 0x3f80_0000);
            lemma_magnitude_order(0x3f80_0000, magnitude as nat);
            lemma_magnitude_order(0, magnitude as nat);
            assert(magnitude_value(0) == 0);
            lemma2_to64();
            lemma_pow2_adds(23, 126);
            assert(magnitude_value(0x3f80_0000) == pow2(149));
        }
        if self.bits >= 0x8000_0000 {
            magnitude == 0
        } else {
            magnitude <= 0x3f80_0000
        }
    }
}


/// What the rounding rule needs to hold: `num / den` lies between the numbers of `lower` and of
/// the next bits up, and divides the gap between them as `rest` divides `unit`.
spec fn is_between(lower: nat, num: int, den: int, rest: int, unit: int, scale: int) -> bool {
    &&& lower + 1 < 0x7f80_0000
    &&& den > 0
    &&& scale > 0
    &&& 0 <= rest < unit
    &&& num * pow2(149) - magnitude_value(lower) * den == rest * scale
    &&& magnitude_value(lower + 1) * den - magnitude_value(lower) * den == unit * scale
}

/// The bits that `num / den` rounds to are those below or above it, whichever is nearer.
proof fn lemma_rounds_to_nearest(
    rounded: Binary32,
    lower: nat,
    num: int,
    den: int,
    rest: int,
    unit: int,
    scale: int,
)
    requires
        is_between(lower, num, den, rest, unit, scale),
        rounded.bits == lower + (if 2 * rest > unit || (2 * rest == unit && lower % 2 == 1) {
            1int
        } else {
            0
        }),
    ensures
        rounded.is_nearest(num, den),
{
    let target = num * pow2(149);
    let low = magnitude_value(lower) * den;
    let high = magnitude_value(lower + 1) * den;
    let up = unit - rest;
    assert(rest * scale >= 0) by (nonlinear_arith)
        requires
            rest >= 0,
            scale > 0,
    ;
    assert(up * scale > 0) by (nonlinear_arith)
        requires
            up > 0,
            scale > 0,
    ;
    assert(up * scale == unit * scale - rest * scale) by (nonlinear_arith)
        requires
            up == unit - rest,
    ;
    assert(rest < up ==> rest * scale < up * scale) by (nonlinear_arith)
        requires
            scale > 0,
    ;
    assert(rest > up ==> rest * scale > up * scale) by (nonlinear_arith)
        requires
            scale > 0,
    ;
    assert forall|other: Binary32| other.is_finite() implies {
        &&& rounded.error_to(num, den) <= #[trigger] other.error_to(num, den)
        &&& rounded.error_to(num, den) == other.error_to(num, den) && other.value()
            != rounded.value() ==> rounded.bits % 2 == 0
    } by {
        let m = other.magnitude();
        let v = other.value();
        lemma_magnitude_order(m, lower);
        lemma_magnitude_order(m, lower + 1);
        assert(v <= magnitude_value(lower) || v >= magnitude_value(lower + 1));
        let w = magnitude_value(lower) as int;
        let x = magnitude_value(lower + 1) as int;
        if v <= w {
            assert(v * den <= w * den) by (nonlinear_arith)
                requires
                    v <= w,
                    den > 0,
            ;
            if v < w {
                assert(v * den < w * den) by (nonlinear_arith)
                    requires
                        v < w,
                        den > 0,
                ;
            }
        } else {
            assert(v * den >= x * den) by (nonlinear_arith)
                requires
                    v >= x,
                    den > 0,
            ;
            if v > x {
                assert(v * den > x * den) by (nonlinear_arith)
                    requires
                        v > x,
                        den > 0,
                ;
            }
        }
    }
}

/// The largest bits up to `top` whose number is at most `num / den`.
proof fn lemma_bits_below(num: int, den: int, top: nat) -> (lower: nat)
    requires
        0 <= num,
        0 < den,
        num * pow2(149) < magnitude_value(top + 1) * den,
    ensures
        lower <= top,
        magnitude_value(lower) * den <= num * pow2(149) < magnitude_value(lower + 1) * den,
    decreases top,
{
    if magnitude_value(top) * den <= num * pow2(149) {
        top
    } else {
        if top == 0 {
            lemma_pow2_pos(149);
            assert(magnitude_value(0) == 0);
            assert(num * pow2(149) >= 0) by (nonlinear_arith)
                requires
                    num >= 0,
                    pow2(149) > 0,
            ;
            assert(magnitude_value(top) * den == 0) by (nonlinear_arith)
                requires
                    magnitude_value(top) == 0,
            ;
            assert(false);
        }
        assert((top - 1) as nat + 1 == top);
        lemma_bits_below(num, den, (top - 1) as nat)
    }
}

/// Every fraction that is not too large rounds to some number.
proof fn lemma_nearest_exists(num: int, den: int) -> (rounded: Binary32)
    requires
        0 <= num,
        0 < den,
        num * pow2(149) < magnitude_value(0x7f7f_ffff) * den,
    ensures
        rounded.is_nearest(num, den),
{
    let lower = lemma_bits_below(num, den, 0x7f7f_fffe);
    let low = magnitude_value(lower) * den;
    let high = magnitude_value(lower + 1) * den;
    let rest = num * pow2(149) - low;
    let unit = high - low;
    let bits = if 2 * rest > unit || (2 * rest == unit && lower % 2 == 1) {
        lower + 1
    } else {
        lower
    };
    let rounded = Binary32 { bits: bits as u32 };
    lemma_rounds_to_nearest(rounded, lower, num, den, rest, unit, 1);
    rounded
}

/// Picks the bits below or above a number that divides the gap between them as `rest` divides
/// `unit`: the nearer ones, and the even ones half-way.
fn round(lower: u32, rest: u64, unit: u64) -> (rounded: u32)
    requires
        lower < 0x7f80_0000,
        rest < unit,
    ensures
        rounded == lower + (if 2 * rest > unit || (2 * rest == unit && lower % 2 == 1) {
            1int
        } else {
            0
        }),
{
    let up: u64 = unit - rest;
    if rest > up || (rest == up && lower % 2 == 1) {
        lower + 1
    } else {
        lower
    }
}

/// The number of bits made of an exponent and a mantissa of 24 bits, and that of the next bits up.
proof fn lemma_mantissa(exponent: nat, mantissa: nat)
    requires
        exponent >= 1,
        0x80_0000 <= mantissa < 0x100_0000,
    ensures
        magnitude_value((exponent - 1) as nat * 0x80_0000 + mantissa) == mantissa * pow2(
            (exponent - 1) as nat,
        ),
        magnitude_value((exponent - 1) as nat * 0x80_0000 + mantissa + 1) == (mantissa + 1) * pow2(
            (exponent - 1) as nat,
        ),
{
    let m = (exponent - 1) as nat * 0x80_0000 + mantissa;
    let p = pow2((exponent - 1) as nat);
    assert(m / 0x80_0000 == exponent);
    assert(m % 0x80_0000 == mantissa - 0x80_0000);
    lemma_magnitude_step(m);
    assert((mantissa + 1) * p == mantissa * p + p) by (nonlinear_arith);
}

impl Binary32 {
    /// Whether this is a number that a size can round to: zero, or from 1 to 2^64.
    pub open spec fn is_size(self) -> bool {
        self.bits == 0 || 0x3f80_0000 <= self.bits <= 0x5f80_0000
    }

    /// The number nearest to a size, as `as` converts it.
    pub fn from_size(size: usize) -> (rounded: Binary32)
        ensures
            rounded.is_nearest(size as int, 1),
            rounded.is_size(),
            rounded.bits == 0 <==> size == 0,
    {
        let n: u64 = size as u64;
        if n == 0 {
            let zero = Binary32 { bits: 0 };
            proof {
                assert(magnitude_value(0) == 0);
                assert forall|other: Binary32| other.is_finite() implies {
                    &&& zero.error_to(0, 1) <= #[trigger] other.error_to(0, 1)
                    &&& zero.error_to(0, 1) == other.error_to(0, 1) && other.value() != zero.value()
                        ==> zero.bits % 2 == 0
                } by {}
            }
            return zero;
        }
        let mut power: u64 = 1;
        let mut log: u32 = 0;
        proof {
            lemma2_to64();
        }
        while power <= n / 2
            invariant
                power == pow2(log as nat),
                1 <= power <= n,
                log <= 63,
            decreases n - power,
        {
            proof {
                lemma_pow2_unfold((log + 1) as nat);
                lemma2_to64();
                if log == 63 {
                    lemma2_to64_rest();
                }
            }
            power = power * 2;
            log = log + 1;
        }
        let ghost scale = pow2(149) as int;
        proof {
            lemma_pow2_pos(149);
            lemma2_to64();
        }
        let exponent: u32 = log + 127;
        if log <= 23 {
            proof {
                lemma_pow2_adds(log as nat, (23 - log) as nat);
                lemma_pow2_pos((23 - log) as nat);
                assert(power * pow2((23 - log) as nat) == 0x80_0000);
                assert(0x80_0000int / (power as int) == pow2((23 - log) as nat)) by (nonlinear_arith)
                    requires
                        power * pow2((23 - log) as nat) == 0x80_0000,
                        power > 0,
                ;
            }
            let factor: u64 = 0x80_0000 / power;
            proof {
                assert(power * factor <= n * factor && n * factor < 2 * power * factor)
                    by (nonlinear_arith)
                    requires
                        power <= n < 2 * power,
                        factor > 0,
                ;
                assert(2 * power * factor == 2 * (power * factor)) by (nonlinear_arith);
            }
            let mantissa: u64 = n * factor;
            let lower: u32 = (exponent - 1) * 0x80_0000 + mantissa as u32;
            let rounded = Binary32 { bits: lower };
            proof {
                lemma_mantissa(exponent as nat, mantissa as nat);
                lemma_pow2_adds((23 - log) as nat, (log + 126) as nat);
                let p = pow2((log + 126) as nat);
                assert(mantissa * p == n * pow2(149)) by (nonlinear_arith)
                    requires
                        mantissa == n * factor,
                        pow2(149) == factor * p,
                ;
                lemma_pow2_pos((log + 126) as nat);
                assert((mantissa + 1) * p - mantissa * p == p) by (nonlinear_arith);
                assert(is_between(lower as nat, size as int, 1, 0, 1, p as int));
                lemma_rounds_to_nearest(rounded, lower as nat, size as int, 1, 0, 1, p as int);
            }
            rounded
        } else {
            proof {
                lemma_pow2_adds(23, (log - 23) as nat);
                lemma_pow2_pos((log - 23) as nat);
                assert((power as int) / 0x80_0000 == pow2((log - 23) as nat)) by (nonlinear_arith)
                    requires
                        power == 0x80_0000 * pow2((log - 23) as nat),
                ;
            }
            let unit: u64 = power / 0x80_0000;
            let mantissa: u64 = n / unit;
            let rest: u64 = n % unit;
            proof {
                assert(0x80_0000 <= mantissa < 0x100_0000) by (nonlinear_arith)
                    requires
                        power == 0x80_0000 * unit,
                        power <= n < 2 * power,
                        unit > 0,
                        mantissa == n / unit,
                ;
                assert(n == unit * mantissa + rest) by {
                    vstd::arithmetic::div_mod::lemma_fundamental_div_mod(n as int, unit as int);
                }
            }
            let lower: u32 = (exponent - 1) * 0x80_0000 + mantissa as u32;
            let rounded = Binary32 { bits: round(lower, rest, unit) };
            proof {
                lemma_mantissa(exponent as nat, mantissa as nat);
                let p = pow2((log + 126) as nat);
                lemma_pow2_adds((log - 23) as nat, 149);
                assert(p == unit * pow2(149));
                assert(n * pow2(149) - mantissa * p == rest * pow2(149)) by (nonlinear_arith)
                    requires
                        n == unit * mantissa + rest,
                        p == unit * pow2(149),
                ;
                assert((mantissa + 1) * p - mantissa * p == p) by (nonlinear_arith);
                assert(is_between(lower as nat, size as int, 1, rest as int, unit as int, scale));
                lemma_rounds_to_nearest(
                    rounded,
                    lower as nat,
                    size as int,
                    1,
                    rest as int,
                    unit as int,
                    scale,
                );
            }
            rounded
        }
    }
}

/// What the division of two numbers that sizes round to gives, as `/` has it: the nearest number
/// to the quotient; an infinity over zero, and no number for zero over zero.
pub open spec fn is_quotient(quotient: Binary32, num: Binary32, den: Binary32) -> bool {
    if den.bits != 0 {
        quotient.is_nearest(num.value(), den.value())
    } else if num.bits != 0 {
        quotient.bits == 0x7f80_0000
    } else {
        quotient.is_nan()
    }
}

impl Binary32 {
    /// Divides by another number.
    pub fn quotient(&self, den: &Binary32) -> (quotient: Binary32)
        requires
            self.is_size(),
            den.is_size(),
        ensures
            is_quotient(quotient, *self, *den),
    {
        if den.bits == 0 {
            return if self.bits == 0 {
                Binary32 { bits: 0x7fc0_0000 }
            } else {
                Binary32 { bits: 0x7f80_0000 }
            };
        }
        let den_exponent: u32 = den.bits / 0x80_0000;
        let den_mantissa: u64 = (den.bits % 0x80_0000 + 0x80_0000) as u64;
        let ghost den_value = den.value();
        let ghost den_power = pow2((den_exponent - 1) as nat) as int;
        proof {
            lemma_mantissa(den_exponent as nat, den_mantissa as nat);
            assert(den_value == den_mantissa * den_power);
            lemma_pow2_pos((den_exponent - 1) as nat);
            assert(den_value > 0) by (nonlinear_arith)
                requires
                    den_value == den_mantissa * den_power,
                    den_mantissa > 0,
                    den_power > 0,
            ;
        }
        if self.bits == 0 {
            let zero = Binary32 { bits: 0 };
            proof {
                assert(magnitude_value(0) == 0);
                assert(self.value() == 0);
                assert(zero.error_to(0, den_value) == 0);
                assert forall|other: Binary32| other.is_finite() implies {
                    &&& zero.error_to(0, den_value) <= #[trigger] other.error_to(0, den_value)
                    &&& zero.error_to(0, den_value) == other.error_to(0, den_value)
                        && other.value() != zero.value() ==> zero.bits % 2 == 0
                } by {}
            }
            return zero;
        }
        let exponent: u32 = self.bits / 0x80_0000;
        let mantissa: u64 = (self.bits % 0x80_0000 + 0x80_0000) as u64;
        let ghost power = pow2((exponent - 1) as nat) as int;
        proof {
            lemma_mantissa(exponent as nat, mantissa as nat);
            assert(self.value() == mantissa * power);
        }
        let (shifted, quotient_exponent): (u64, u32) = if mantissa >= den_mantissa {
            (mantissa * 0x80_0000, 127 + exponent - den_exponent)
        } else {
            (mantissa * 0x100_0000, 126 + exponent - den_exponent)
        };
        let digits: u64 = shifted / den_mantissa;
        let rest: u64 = shifted % den_mantissa;
        proof {
            assert(shifted == den_mantissa * digits + rest) by {
                vstd::arithmetic::div_mod::lemma_fundamental_div_mod(
                    shifted as int,
                    den_mantissa as int,
                );
            }
            assert(0x80_0000 <= digits < 0x100_0000) by (nonlinear_arith)
                requires
                    digits == shifted / den_mantissa,
                    0x80_0000 <= mantissa < 0x100_0000,
                    0x80_0000 <= den_mantissa < 0x100_0000,
                    mantissa >= den_mantissa ==> shifted == mantissa * 0x80_0000,
                    mantissa < den_mantissa ==> shifted == mantissa * 0x100_0000,
            ;
        }
        let lower: u32 = (quotient_exponent - 1) * 0x80_0000 + digits as u32;
        let quotient = Binary32 { bits: round(lower, rest, den_mantissa) };
        proof {
            lemma_mantissa(quotient_exponent as nat, digits as nat);
            let p = pow2((quotient_exponent - 1) as nat) as int;
            let scale = p * den_power;
            lemma_pow2_pos((quotient_exponent - 1) as nat);
            lemma_pow2_adds((quotient_exponent - 1) as nat, (den_exponent - 1) as nat);
            let sum = (quotient_exponent - 1 + den_exponent - 1) as nat;
            assert(scale == pow2(sum));
            lemma2_to64();
            lemma_pow2_adds((exponent - 1) as nat, 149);
            if mantissa >= den_mantissa {
                lemma_pow2_adds(23, sum);
                assert(power * pow2(149) == 0x80_0000 * scale);
            } else {
                lemma_pow2_adds(24, sum);
                assert(power * pow2(149) == 0x100_0000 * scale);
            }
            let target = self.value() * pow2(149);
            assert(target == shifted * scale) by (nonlinear_arith)
                requires
                    target == mantissa * power * pow2(149),
                    power * pow2(149) == 0x80_0000 * scale && shifted == mantissa * 0x80_0000
                        || power * pow2(149) == 0x100_0000 * scale && shifted == mantissa
                        * 0x100_0000,
            ;
            let low = magnitude_value(lower as nat) * den_value;
            let high = magnitude_value((lower + 1) as nat) * den_value;
            assert(low == den_mantissa * digits * scale) by (nonlinear_arith)
                requires
                    low == digits * p * (den_mantissa * den_power),
                    scale == p * den_power,
            ;
            assert(high == den_mantissa * (digits + 1) * scale) by (nonlinear_arith)
                requires
                    high == (digits + 1) * p * (den_mantissa * den_power),
                    scale == p * den_power,
            ;
            assert(target - low == rest * scale) by (nonlinear_arith)
                requires
                    target == shifted * scale,
                    low == den_mantissa * digits * scale,
                    shifted == den_mantissa * digits + rest,
            ;
            assert(high - low == den_mantissa * scale) by (nonlinear_arith)
                requires
                    low == den_mantissa * digits * scale,
                    high == den_mantissa * (digits + 1) * scale,
            ;
            assert(scale > 0) by (nonlinear_arith)
                requires
                    scale == p * den_power,
                    p > 0,
                    den_power > 0,
            ;
            assert(is_between(
                lower as nat,
                self.value(),
                den_value,
                rest as int,
                den_mantissa as int,
                scale,
            ));
            lemma_rounds_to_nearest(
                quotient,
                lower as nat,
                self.value(),
                den_value,
                rest as int,
                den_mantissa as int,
                scale,
            );
        }
        quotient
    }
}

/// Whether `fraction` is `used / total` in single precision: both sizes are rounded first, and so
/// is their quotient.
pub open spec fn is_fill_fraction(fraction: Binary32, used: int, total: int) -> bool {
    exists|num: Binary32, den: Binary32|
        #![trigger num.is_nearest(used, 1), den.is_nearest(total, 1)]
        num.is_nearest(used, 1) && den.is_nearest(total, 1) && is_quotient(fraction, num, den)
}

/// The part of `total` that `used` makes up, in single precision.
pub fn fill_fraction(used: usize, total: usize) -> (fraction: Binary32)
    ensures
        is_fill_fraction(fraction, used as int, total as int),
{
    let num = Binary32::from_size(used);
    let den = Binary32::from_size(total);
    num.quotient(&den)
}

/// Rounding keeps order: the number nearest to a fraction is not above a number that is at least
/// the fraction, and not below one that is at most the fraction.
proof fn lemma_rounding_keeps_order(rounded: Binary32, num: int, den: int, bound: Binary32)
    requires
        den > 0,
        rounded.is_nearest(num, den),
        bound.is_finite(),
    ensures
        num * pow2(149) <= bound.value() * den ==> rounded.value() <= bound.value(),
        num * pow2(149) >= bound.value() * den ==> rounded.value() >= bound.value(),
{
    let v = rounded.value();
    let w = bound.value();
    assert(rounded.error_to(num, den) <= bound.error_to(num, den));
    assert(v > w ==> v * den > w * den) by (nonlinear_arith)
        requires
            den > 0,
    ;
    assert(v < w ==> v * den < w * den) by (nonlinear_arith)
        requires
            den > 0,
    ;
}

/// A fraction rounds to one number only.
pub proof fn rounding_is_unique(a: Binary32, b: Binary32, num: int, den: int)
    requires
        den > 0,
        a.is_nearest(num, den),
        b.is_nearest(num, den),
    ensures
        a == b,
{
    assert(a.error_to(num, den) <= b.error_to(num, den));
    assert(b.error_to(num, den) <= a.error_to(num, den));
    lemma_magnitude_order(a.magnitude(), b.magnitude());
    if a.value() != b.value() {
        let low = if a.bits < b.bits {
            a
        } else {
            b
        };
        let high = if a.bits < b.bits {
            b
        } else {
            a
        };
        let middle = Binary32 { bits: (low.bits + 1) as u32 };
        assert(high.bits >= low.bits + 2);
        lemma_magnitude_order(low.magnitude(), middle.magnitude());
        lemma_magnitude_order(middle.magnitude(), high.magnitude());
        lemma_magnitude_order(low.magnitude(), high.magnitude());
        let u = low.value();
        let v = middle.value();
        let w = high.value();
        assert(u * den < v * den && v * den < w * den) by (nonlinear_arith)
            requires
                u < v < w,
                den > 0,
        ;
        assert(a.error_to(num, den) <= middle.error_to(num, den));
        assert(false);
    }
}

/// Of two sizes, the one that is not larger does not round to a larger number.
proof fn lemma_sizes_round_in_order(a: Binary32, b: Binary32, small: int, large: int)
    requires
        small <= large,
        a.is_nearest(small, 1),
        b.is_nearest(large, 1),
    ensures
        a.value() <= b.value(),
{
    assert(a.error_to(small, 1) <= b.error_to(small, 1));
    assert(b.error_to(large, 1) <= a.error_to(large, 1));
    let p = pow2(149) as int;
    lemma_pow2_pos(149);
    assert(small * p <= large * p) by (nonlinear_arith)
        requires
            small <= large,
            p > 0,
    ;
    if a.value() > b.value() {
        assert(small * p == large * p);
        assert(small == large) by (nonlinear_arith)
            requires
                small * p == large * p,
                p > 0,
        ;
        rounding_is_unique(a, b, small, 1);
    }
}

/// Two sizes have one fraction only, where the whole is not empty.
pub proof fn fill_fraction_is_unique(a: Binary32, b: Binary32, used: int, total: int)
    requires
        0 < total <= u64::MAX,
        is_fill_fraction(a, used, total),
        is_fill_fraction(b, used, total),
    ensures
        a == b,
{
    let (num_a, den_a) = choose|num: Binary32, den: Binary32|
        #![trigger num.is_nearest(used, 1), den.is_nearest(total, 1)]
        num.is_nearest(used, 1) && den.is_nearest(total, 1) && is_quotient(a, num, den);
    let (num_b, den_b) = choose|num: Binary32, den: Binary32|
        #![trigger num.is_nearest(used, 1), den.is_nearest(total, 1)]
        num.is_nearest(used, 1) && den.is_nearest(total, 1) && is_quotient(b, num, den);
    rounding_is_unique(num_a, num_b, used, 1);
    rounding_is_unique(den_a, den_b, total, 1);
    lemma_size_is_positive(den_a, total);
    rounding_is_unique(a, b, num_a.value(), den_a.value());
}

/// The number of bits whose fraction part is zero is a power of two.
proof fn lemma_power_value(bits: u32, exponent: nat)
    requires
        1 <= exponent < 255,
        bits == exponent * 0x80_0000,
    ensures
        (Binary32 { bits }).value() == pow2(exponent + 22),
        (Binary32 { bits }).is_finite(),
{
    assert(bits as nat / 0x80_0000 == exponent);
    assert(bits as nat % 0x80_0000 == 0);
    lemma2_to64();
    lemma_pow2_adds(23, (exponent - 1) as nat);
}

/// The fraction of a whole that is stored in full or in part is never above one, however the
/// sizes round.
pub proof fn fill_fraction_is_at_most_one(fraction: Binary32, used: int, total: int)
    requires
        0 <= used <= total,
        0 < total <= u64::MAX,
        is_fill_fraction(fraction, used, total),
    ensures
        !fraction.is_nan(),
        0 <= fraction.value() <= pow2(149),
{
    let (num, den) = choose|num: Binary32, den: Binary32|
        #![trigger num.is_nearest(used, 1), den.is_nearest(total, 1)]
        num.is_nearest(used, 1) && den.is_nearest(total, 1) && is_quotient(fraction, num, den);
    lemma_sizes_round_in_order(num, den, used, total);
    lemma_size_is_positive(den, total);
    let one = Binary32 { bits: 0x3f80_0000 };
    lemma_power_value(0x3f80_0000, 127);
    let p = pow2(149) as int;
    lemma_pow2_pos(149);
    let a = num.value();
    let b = den.value();
    assert(a * p <= p * b) by (nonlinear_arith)
        requires
            a <= b,
            p > 0,
    ;
    lemma_rounding_keeps_order(fraction, a, b, one);
}

/// A size of at least one rounds to a number of at least one.
proof fn lemma_size_is_positive(rounded: Binary32, size: int)
    requires
        1 <= size,
        rounded.is_nearest(size, 1),
    ensures
        rounded.value() >= pow2(149) > 0,
        rounded.bits != 0,
{
    let one = Binary32 { bits: 0x3f80_0000 };
    lemma_power_value(0x3f80_0000, 127);
    let p = pow2(149) as int;
    lemma_pow2_pos(149);
    assert(size * p >= p) by (nonlinear_arith)
        requires
            size >= 1,
            p > 0,
    ;
    lemma_rounding_keeps_order(rounded, size, 1, one);
    assert(magnitude_value(0) == 0);
}

/// As soon as anything at all is stored, the fraction is above zero, however the sizes round.
pub proof fn fill_fraction_of_something_is_positive(fraction: Binary32, used: int, total: int)
    requires
        0 < used <= u64::MAX,
        0 < total <= u64::MAX,
        is_fill_fraction(fraction, used, total),
    ensures
        !fraction.is_nan(),
        fraction.value() > 0,
{
    let (num, den) = choose|num: Binary32, den: Binary32|
        #![trigger num.is_nearest(used, 1), den.is_nearest(total, 1)]
        num.is_nearest(used, 1) && den.is_nearest(total, 1) && is_quotient(fraction, num, den);
    lemma_size_is_positive(num, used);
    lemma_size_is_positive(den, total);
    lemma_size_is_bounded(den, total);
    let p = pow2(149) as int;
    let least = Binary32 { bits: 0x1f80_0000 };
    lemma_power_value(0x1f80_0000, 63);
    let q = pow2(85) as int;
    let t = pow2(213) as int;
    lemma_pow2_pos(85);
    lemma_pow2_adds(85, 213);
    lemma_pow2_adds(149, 149);
    let a = num.value();
    let b = den.value();
    assert(q * b <= a * p) by (nonlinear_arith)
        requires
            b <= t,
            q > 0,
            a >= p,
            p > 0,
            q * t == p * p,
    ;
    lemma_rounding_keeps_order(fraction, a, b, least);
}

/// A size does not round to more than 2^64.
proof fn lemma_size_is_bounded(rounded: Binary32, size: int)
    requires
        size <= u64::MAX,
        rounded.is_nearest(size, 1),
    ensures
        rounded.value() <= pow2(213),
{
    let p = pow2(149) as int;
    let top = Binary32 { bits: 0x5f80_0000 };
    lemma_power_value(0x5f80_0000, 191);
    lemma2_to64();
    lemma_pow2_pos(149);
    lemma_pow2_adds(64, 149);
    assert(size * p <= 0x1_0000_0000_0000_0000 * p) by (nonlinear_arith)
        requires
            size <= u64::MAX,
            p > 0,
    ;
    lemma_rounding_keeps_order(rounded, size, 1, top);
}

/// Two sizes always have a fraction, where the whole is not empty.
pub proof fn fill_fraction_exists(used: int, total: int) -> (fraction: Binary32)
    requires
        0 <= used <= u64::MAX,
        0 < total <= u64::MAX,
    ensures
        is_fill_fraction(fraction, used, total),
{
    let p = pow2(149) as int;
    let t = pow2(213) as int;
    lemma_pow2_pos(149);
    lemma2_to64();
    lemma_pow2_adds(64, 149);
    lemma_power_value(0x5f80_0000, 191);
    lemma_magnitude_order(0x5f80_0000, 0x7f7f_ffff);
    let x = magnitude_value(0x7f7f_ffff) as int;
    assert(used * p < x && total * p < x) by (nonlinear_arith)
        requires
            used <= u64::MAX,
            total <= u64::MAX,
            p > 0,
            0x1_0000_0000_0000_0000 * p < x,
    ;
    let num = lemma_nearest_exists(used, 1);
    let den = lemma_nearest_exists(total, 1);
    lemma_size_is_bounded(num, used);
    lemma_size_is_positive(den, total);
    let a = num.value();
    let b = den.value();
    assert(a * p < x * b) by (nonlinear_arith)
        requires
            a <= t < x,
            b >= p > 0,
            t > 0,
    ;
    let fraction = lemma_nearest_exists(a, b);
    assert(num.is_nearest(used, 1) && den.is_nearest(total, 1) && is_quotient(fraction, num, den));
    fraction
}

/// Whether the single-precision fraction `used / total` is a number above `bound`.
pub open spec fn fill_exceeds(used: int, total: int, bound: Binary32) -> bool {
    exists|fraction: Binary32| #[trigger]
        is_fill_fraction(fraction, used, total) && !fraction.is_nan() && !bound.is_nan()
            && fraction.value() > bound.value()
}

/// Compares the single-precision fraction `used / total` with a bound.
pub fn fill_fraction_exceeds(used: usize, total: usize, bound: &Binary32) -> (exceeds: bool)
    ensures
        exceeds == fill_exceeds(used as int, total as int, *bound),
{
    let fraction = fill_fraction(used, total);
    let exceeds = fraction.gt(bound);
    proof {
        if fill_exceeds(used as int, total as int, *bound) {
            let other = choose|other: Binary32| #[trigger]
                is_fill_fraction(other, used as int, total as int) && !other.is_nan()
                    && !bound.is_nan() && other.value() > bound.value();
            if total > 0 {
                fill_fraction_is_unique(fraction, other, used as int, total as int);
            } else {
                lemma_fill_fraction_of_empty(fraction, other, used as int);
            }
        }
    }
    exceeds
}

/// What is nearest to nothing is zero.
proof fn lemma_nearest_to_nothing(rounded: Binary32)
    requires
        rounded.is_nearest(0, 1),
    ensures
        rounded.bits == 0,
{
    let zero = Binary32 { bits: 0 };
    assert(magnitude_value(0) == 0);
    lemma_rounding_keeps_order(rounded, 0, 1, zero);
    lemma_magnitude_order(rounded.magnitude(), 0);
}

/// Over an empty whole, the fraction is one infinity, or no number.
proof fn lemma_fill_fraction_of_empty(a: Binary32, b: Binary32, used: int)
    requires
        0 <= used,
        is_fill_fraction(a, used, 0),
        is_fill_fraction(b, used, 0),
    ensures
        a == b || (a.is_nan() && b.is_nan()),
{
    let (num_a, den_a) = choose|num: Binary32, den: Binary32|
        #![trigger num.is_nearest(used, 1), den.is_nearest(0, 1)]
        num.is_nearest(used, 1) && den.is_nearest(0, 1) && is_quotient(a, num, den);
    let (num_b, den_b) = choose|num: Binary32, den: Binary32|
        #![trigger num.is_nearest(used, 1), den.is_nearest(0, 1)]
        num.is_nearest(used, 1) && den.is_nearest(0, 1) && is_quotient(b, num, den);
    rounding_is_unique(num_a, num_b, used, 1);
    lemma_nearest_to_nothing(den_a);
    lemma_nearest_to_nothing(den_b);
}

/// The bits of nine tenths.
pub(crate) proof fn lemma_nine_tenths()
    ensures
        (Binary32 { bits: 0x3f66_6666 }).is_nearest(9, 10),
        !(Binary32 { bits: 0x3f66_6666 }).is_nan(),
        0 <= (Binary32 { bits: 0x3f66_6666 }).value() <= pow2(149),
{
    let bits = 0x3f66_6666u32;
    lemma_mantissa(126, 0xe6_6666);
    lemma2_to64();
    lemma_pow2_pos(125);
    lemma_pow2_adds(24, 125);
    let p = pow2(125) as int;
    assert(pow2(149) == 0x100_0000 * p);
    assert(magnitude_value(0x3f66_6666) == 0xe6_6666 * p);
    let lower = 0x3f66_6666nat;
    assert(magnitude_value(lower + 1) == 0xe6_6667 * p);
    assert(9 * pow2(149) - magnitude_value(lower) * 10 == 4 * p) by (nonlinear_arith)
        requires
            pow2(149) == 0x100_0000 * p,
            magnitude_value(lower) == 0xe6_6666 * p,
    ;
    assert(magnitude_value(lower + 1) * 10 - magnitude_value(lower) * 10 == 10 * p)
        by (nonlinear_arith)
        requires
            magnitude_value(lower) == 0xe6_6666 * p,
            magnitude_value(lower + 1) == 0xe6_6667 * p,
    ;
    lemma_rounds_to_nearest(Binary32 { bits }, lower, 9, 10, 4, 10, p);
}

/// A fraction is within one part in 2^23 of the number that it rounds to, where that is not one of the
/// very smallest or the very largest.
proof fn lemma_rounds_closely(rounded: Binary32, num: int, den: int)
    requires
        den > 0,
        rounded.is_nearest(num, den),
        0x80_0000 <= rounded.bits < 0x7f7f_ffff,
    ensures
        (num * pow2(149)) * 0x80_0000 <= (rounded.value() * den) * 0x80_0001,
        (num * pow2(149)) * 0x80_0000 >= (rounded.value() * den) * 0x7f_ffff,
        rounded.value() > 0,
{
    let m = rounded.bits as nat;
    let below = Binary32 { bits: (rounded.bits - 1) as u32 };
    let above = Binary32 { bits: (rounded.bits + 1) as u32 };
    let e = m / 0x80_0000;
    let f = m % 0x80_0000;
    let x = num * pow2(149);
    let v = rounded.value();
    lemma_magnitude_step(m);
    lemma_magnitude_step((m - 1) as nat);
    lemma_rounding_keeps_order(rounded, num, den, above);
    lemma_rounding_keeps_order(rounded, num, den, below);
    let p = pow2((e - 1) as nat) as int;
    lemma_pow2_pos((e - 1) as nat);
    let up = above.value() - v;
    let down = v - below.value();
    assert(up == p);
    let d = (m - 1) as nat / 0x80_0000;
    assert(down <= p) by {
        if d == 0 {
        } else if d < e {
            lemma_pow2_strictly_increases((d - 1) as nat, (e - 1) as nat);
        } else {
            assert(d == e);
        }
    }
    assert(v == (0x80_0000 + f) * p);
    assert(v >= 0x80_0000 * p) by (nonlinear_arith)
        requires
            v == (0x80_0000 + f) * p,
            p > 0,
            f >= 0,
    ;
    let step = p * den;
    assert(x < above.value() * den && x > below.value() * den);
    assert(above.value() * den == v * den + step) by (nonlinear_arith)
        requires
            above.value() == v + p,
            step == p * den,
    ;
    assert(below.value() * den >= v * den - step) by (nonlinear_arith)
        requires
            below.value() >= v - p,
            step == p * den,
            den > 0,
    ;
    assert(v * den >= 0x80_0000 * step) by (nonlinear_arith)
        requires
            v >= 0x80_0000 * p,
            step == p * den,
            den > 0,
    ;
}

/// Where the bits of a number that a size rounds to lie.
proof fn lemma_size_bits(rounded: Binary32, size: int)
    requires
        1 <= size <= u64::MAX,
        rounded.is_nearest(size, 1),
    ensures
        0x3f80_0000 <= rounded.bits <= 0x5f80_0000,
{
    lemma_size_is_positive(rounded, size);
    lemma_size_is_bounded(rounded, size);
    lemma_power_value(0x3f80_0000, 127);
    lemma_power_value(0x5f80_0000, 191);
    lemma_magnitude_order(rounded.magnitude(), 0x3f80_0000);
    lemma_magnitude_order(rounded.magnitude(), 0x5f80_0000);
}

/// The bits of a fraction of two sizes lie far from the smallest and the largest numbers.
proof fn lemma_fraction_bits(fraction: Binary32, num: Binary32, den: Binary32)
    requires
        0x3f80_0000 <= num.bits <= 0x5f80_0000,
        0x3f80_0000 <= den.bits <= 0x5f80_0000,
        fraction.is_nearest(num.value(), den.value()),
    ensures
        0x80_0000 <= fraction.bits < 0x7f7f_ffff,
        den.value() > 0,
{
    lemma_power_value(0x3f80_0000, 127);
    lemma_power_value(0x5f80_0000, 191);
    lemma_magnitude_order(num.magnitude(), 0x3f80_0000);
    lemma_magnitude_order(num.magnitude(), 0x5f80_0000);
    lemma_magnitude_order(den.magnitude(), 0x3f80_0000);
    lemma_magnitude_order(den.magnitude(), 0x5f80_0000);
    let least = Binary32 { bits: 0x1f80_0000 };
    let most = Binary32 { bits: 0x5f80_0000 };
    lemma_power_value(0x1f80_0000, 63);
    let p = pow2(149) as int;
    let q = pow2(85) as int;
    let t = pow2(213) as int;
    let a = num.value();
    let b = den.value();
    lemma_pow2_pos(149);
    lemma_pow2_pos(85);
    lemma_pow2_pos(213);
    lemma_pow2_adds(85, 213);
    lemma_pow2_adds(149, 149);
    assert(q * b <= a * p) by (nonlinear_arith)
        requires
            b <= t,
            q > 0,
            a >= p,
            p > 0,
            q * t == p * p,
    ;
    assert(a * p <= t * b) by (nonlinear_arith)
        requires
            a <= t,
            b >= p,
            p > 0,
            t > 0,
    ;
    lemma_rounding_keeps_order(fraction, a, b, least);
    lemma_rounding_keeps_order(fraction, a, b, most);
    lemma_magnitude_order(fraction.magnitude(), 0x1f80_0000);
    lemma_magnitude_order(fraction.magnitude(), 0x5f80_0000);
}

/// The fraction of a map that is in use, taken exactly, decides whether it is above a bound, unless
/// the two are within one part in a million of each other: there rounding may decide. Two sizes are
/// compared by their ratio, however large they are.
pub proof fn the_ratio_of_the_sizes_decides(used: int, total: int, bound: Binary32)
    requires
        0 <= used <= u64::MAX,
        0 < total <= u64::MAX,
        bound.is_finite(),
        0 <= bound.value(),
    ensures
        (used * pow2(149)) * 999_999 > (bound.value() * total) * 1_000_000 ==> fill_exceeds(
            used,
            total,
            bound,
        ),
        (used * pow2(149)) * 1_000_000 <= (bound.value() * total) * 999_999 ==> !fill_exceeds(
            used,
            total,
            bound,
        ),
{
    let fraction = fill_fraction_exists(used, total);
    lemma_fraction_decides(fraction, used, total, bound);
    lemma_fraction_is_close(fraction, used, total, bound.value());
}

/// The one fraction of two sizes decides whether it is above a bound.
proof fn lemma_fraction_decides(fraction: Binary32, used: int, total: int, bound: Binary32)
    requires
        0 <= used <= u64::MAX,
        0 < total <= u64::MAX,
        is_fill_fraction(fraction, used, total),
        bound.is_finite(),
    ensures
        fill_exceeds(used, total, bound) <==> fraction.value() > bound.value(),
{
    if fill_exceeds(used, total, bound) {
        let other = choose|other: Binary32| #[trigger]
            is_fill_fraction(other, used, total) && !other.is_nan() && !bound.is_nan()
                && other.value() > bound.value();
        fill_fraction_is_unique(fraction, other, used, total);
    }
    let (num, den) = choose|num: Binary32, den: Binary32|
        #![trigger num.is_nearest(used, 1), den.is_nearest(total, 1)]
        num.is_nearest(used, 1) && den.is_nearest(total, 1) && is_quotient(fraction, num, den);
    lemma_size_is_positive(den, total);
    assert(fraction.is_finite());
}

/// The fraction of two sizes is close to their exact ratio.
proof fn lemma_fraction_is_close(fraction: Binary32, used: int, total: int, w: int)
    requires
        0 <= used <= u64::MAX,
        0 < total <= u64::MAX,
        is_fill_fraction(fraction, used, total),
        0 <= w,
    ensures
        fraction.value() <= w ==> (used * pow2(149)) * 999_999 <= (w * total) * 1_000_000,
        fraction.value() > w ==> (used * pow2(149)) * 1_000_000 > (w * total) * 999_999,
{
    let (num, den) = choose|num: Binary32, den: Binary32|
        #![trigger num.is_nearest(used, 1), den.is_nearest(total, 1)]
        num.is_nearest(used, 1) && den.is_nearest(total, 1) && is_quotient(fraction, num, den);
    lemma_size_bits(den, total);
    if used == 0 {
        lemma_fraction_of_nothing(fraction, num, den);
        assert((used * pow2(149)) * 999_999 == 0) by (nonlinear_arith)
            requires
                used == 0,
        ;
        assert((w * total) * 1_000_000 >= 0) by (nonlinear_arith)
            requires
                w >= 0,
                total > 0,
        ;
    } else {
        let p = pow2(149) as int;
        lemma_pow2_pos(149);
        lemma_size_bits(num, used);
        lemma_fraction_bits(fraction, num, den);
        lemma_rounds_closely(num, used, 1);
        lemma_rounds_closely(den, total, 1);
        lemma_rounds_closely(fraction, num.value(), den.value());
        let u = used * p;
        assert(u > 0) by (nonlinear_arith)
            requires
                used > 0,
                p > 0,
                u == used * p,
        ;
        lemma_ratio_bounds(u, total, p, num.value(), den.value(), fraction.value(), w);
    }
}

/// The fraction of nothing is zero.
proof fn lemma_fraction_of_nothing(fraction: Binary32, num: Binary32, den: Binary32)
    requires
        num.is_nearest(0, 1),
        0x3f80_0000 <= den.bits <= 0x5f80_0000,
        fraction.is_nearest(num.value(), den.value()),
    ensures
        fraction.value() == 0,
{
    let zero = Binary32 { bits: 0 };
    assert(magnitude_value(0) == 0);
    lemma_rounding_keeps_order(num, 0, 1, zero);
    lemma_power_value(0x3f80_0000, 127);
    lemma_pow2_pos(149);
    lemma_magnitude_order(den.magnitude(), 0x3f80_0000);
    lemma_rounding_keeps_order(fraction, 0, den.value(), zero);
}

/// What three roundings, each by no more than one part in 2^23, leave of a comparison.
proof fn lemma_ratio_bounds(u: int, t: int, p: int, a: int, d: int, r: int, w: int)
    requires
        p > 0,
        t > 0,
        u > 0,
        a > 0,
        d > 0,
        r > 0,
        w >= 0,
        u * 0x80_0000 <= a * 0x80_0001,
        u * 0x80_0000 >= a * 0x7f_ffff,
        (t * p) * 0x80_0000 <= d * 0x80_0001,
        (t * p) * 0x80_0000 >= d * 0x7f_ffff,
        (a * p) * 0x80_0000 <= (r * d) * 0x80_0001,
        (a * p) * 0x80_0000 >= (r * d) * 0x7f_ffff,
    ensures
        r <= w ==> u * 999_999 <= (w * t) * 1_000_000,
        r > w ==> u * 1_000_000 > (w * t) * 999_999,
{
    let up = u * p;
    let ap = a * p;
    let rd = r * d;
    let rt = r * t;
    let rtp = rt * p;
    assert(up * 0x80_0000 <= ap * 0x80_0001 && up * 0x80_0000 >= ap * 0x7f_ffff)
        by (nonlinear_arith)
        requires
            u * 0x80_0000 <= a * 0x80_0001,
            u * 0x80_0000 >= a * 0x7f_ffff,
            up == u * p,
            ap == a * p,
            p > 0,
    ;
    assert(rtp * 0x80_0000 <= rd * 0x80_0001 && rtp * 0x80_0000 >= rd * 0x7f_ffff)
        by (nonlinear_arith)
        requires
            (t * p) * 0x80_0000 <= d * 0x80_0001,
            (t * p) * 0x80_0000 >= d * 0x7f_ffff,
            rtp == (r * t) * p,
            rd == r * d,
            r > 0,
    ;
    assert(rd > 0) by (nonlinear_arith)
        requires
            r > 0,
            d > 0,
            rd == r * d,
    ;
    // All of these are now linear in `up`, `ap`, `rd` and `rtp`.
    assert(up * 999_999 <= rtp * 1_000_000);
    assert(up * 1_000_000 > rtp * 999_999);
    assert(u * 999_999 <= rt * 1_000_000 && u * 1_000_000 > rt * 999_999) by (nonlinear_arith)
        requires
            up * 999_999 <= rtp * 1_000_000,
            up * 1_000_000 > rtp * 999_999,
            up == u * p,
            rtp == rt * p,
            p > 0,
    ;
    let wt = w * t;
    assert(r <= w ==> rt <= wt) by (nonlinear_arith)
        requires
            rt == r * t,
            wt == w * t,
            t > 0,
    ;
    assert(r > w ==> rt >= wt) by (nonlinear_arith)
        requires
            rt == r * t,
            wt == w * t,
            t > 0,
    ;
}

/// The bits of one stand for 2^149 units, one more in the exponent doubles a number, and one more in
/// the bits is the next larger number. The sign bit turns it round.
pub proof fn bits_stand_for_numbers(bits: u32)
    requires
        0x80_0000 <= bits < 0x7f00_0000,
    ensures
        (Binary32 { bits: 0x3f80_0000 }).value() == pow2(149),
        (Binary32 { bits: (bits + 0x80_0000) as u32 }).value() == 2 * (Binary32 { bits }).value(),
        (Binary32 { bits: (bits + 1) as u32 }).value() > (Binary32 { bits }).value(),
        (Binary32 { bits: (bits + 0x8000_0000) as u32 }).value() == -(Binary32 { bits }).value(),
        (Binary32 { bits: 1 }).value() == 1,
        (Binary32 { bits: 0 }).value() == 0,
{
    lemma_power_value(0x3f80_0000, 127);
    let m = bits as nat;
    let e = m / 0x80_0000;
    let f = m % 0x80_0000;
    let p = pow2((e - 1) as nat);
    assert((m + 0x80_0000) / 0x80_0000 == e + 1);
    assert((m + 0x80_0000) % 0x80_0000 == f);
    lemma_pow2_unfold(e);
    assert((0x80_0000 + f) * (2 * p) == 2 * ((0x80_0000 + f) * p)) by (nonlinear_arith);
    lemma_magnitude_step(m);
}

/// The fractions from 0 to 1 are the bits up to those of one, and those of the negative zero.
pub proof fn fractions_are_the_bits_up_to_one(number: Binary32)
    ensures
        crate::resize::is_fraction(number) <==> number.bits <= 0x3f80_0000 || number.bits
            == 0x8000_0000,
{
    lemma_magnitude_order(number.magnitude(), 0x3f80_0000);
    lemma_magnitude_order(0, number.magnitude());
    lemma_power_value(0x3f80_0000, 127);
    assert(magnitude_value(0) == 0);
}

/// A fraction rounds to a number that no other is nearer to. Where another one is just as near, it
/// rounds to the one whose last bit is zero.
pub proof fn rounding_is_to_nearest_and_even(
    rounded: Binary32,
    other: Binary32,
    num: int,
    den: int,
)
    requires
        rounded.is_nearest(num, den),
        other.is_finite(),
        other.value() != rounded.value(),
    ensures
        ({
            let exact = num * pow2(149);
            let here = rounded.value() * den - exact;
            let there = other.value() * den - exact;
            let here = if here < 0 {
                -here
            } else {
                here
            };
            let there = if there < 0 {
                -there
            } else {
                there
            };
            &&& here <= there
            &&& here == there ==> rounded.bits % 2 == 0
        }),
{
    assert(rounded.error_to(num, den) <= other.error_to(num, den));
}

/// Over an empty whole, anything at all is above every bound, and nothing is not.
pub proof fn an_empty_whole_is_exceeded_by_anything(used: int, bound: Binary32)
    requires
        0 <= used <= u64::MAX,
        bound.is_finite(),
    ensures
        fill_exceeds(used, 0, bound) <==> used > 0,
{
    let infinity = Binary32 { bits: 0x7f80_0000 };
    let p = pow2(149) as int;
    lemma_pow2_pos(149);
    lemma2_to64();
    lemma_pow2_adds(64, 149);
    lemma_power_value(0x5f80_0000, 191);
    lemma_magnitude_order(0x5f80_0000, 0x7f7f_ffff);
    let x = magnitude_value(0x7f7f_ffff) as int;
    assert(used * p < x && 0 * p < x) by (nonlinear_arith)
        requires
            used <= u64::MAX,
            p > 0,
            0x1_0000_0000_0000_0000 * p < x,
    ;
    let num = lemma_nearest_exists(used, 1);
    let den = lemma_nearest_exists(0, 1);
    lemma_nearest_to_nothing(den);
    if used > 0 {
        lemma_size_is_positive(num, used);
        assert(num.is_nearest(used, 1) && den.is_nearest(0, 1) && is_quotient(infinity, num, den));
        assert(is_fill_fraction(infinity, used, 0));
        lemma_magnitude_order(bound.magnitude(), 0x7f80_0000);
        lemma_magnitude_order(0, 0x7f80_0000);
        assert(infinity.value() > bound.value());
    } else if fill_exceeds(used, 0, bound) {
        let fraction = choose|fraction: Binary32| #[trigger]
            is_fill_fraction(fraction, used, 0) && !fraction.is_nan() && !bound.is_nan()
                && fraction.value() > bound.value();
        let (a, b) = choose|a: Binary32, b: Binary32|
            #![trigger a.is_nearest(used, 1), b.is_nearest(0, 1)]
            a.is_nearest(used, 1) && b.is_nearest(0, 1) && is_quotient(fraction, a, b);
        lemma_nearest_to_nothing(a);
        lemma_nearest_to_nothing(b);
    }
}

/// Two numbers are equal just where their bits are the same, or both are zero, and nothing is equal to
/// what is not a number.
pub proof fn equal_numbers_have_equal_bits(a: Binary32, b: Binary32)
    ensures
        vstd::std_specs::cmp::PartialEqSpec::eq_spec(&a, &b) <==> {
            ||| a.bits == b.bits && a.bits % 0x8000_0000 <= 0x7f80_0000
            ||| a.bits % 0x8000_0000 == 0 && b.bits % 0x8000_0000 == 0
        },
{
    lemma_magnitude_order(a.magnitude(), b.magnitude());
    lemma_magnitude_order(0, a.magnitude());
    lemma_magnitude_order(0, b.magnitude());
    assert(magnitude_value(0) == 0);
}

} // verus!
