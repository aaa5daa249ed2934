//! Numbers of parameters: integers and 32-bit floats, compared and stepped in exact integer
//! arithmetic.
//!
//! A float is held as its IEEE 754 bits. Every integer of a parameter and every finite 32-bit
//! float is a multiple of `2^-149`, so a number is modelled by that multiple.

use vstd::arithmetic::div_mod::*;
use vstd::arithmetic::power2::*;
use vstd::prelude::*;

verus! {

/// A number: a multiple of `2^-149`, an infinity, or not a number.
pub enum Real {
    NotANumber,
    Infinite,
    NegInfinite,
    Finite(int),
}

/// The number that the bits of a 32-bit float stand for.
pub open spec fn float_number(bits: u32) -> Real {
    let negative = bits >= 0x8000_0000;
    let exponent = (bits / 0x80_0000) % 256;
    let fraction = bits % 0x80_0000;
    if exponent == 255 {
        if fraction != 0 {
            Real::NotANumber
        } else if negative {
            Real::NegInfinite
        } else {
            Real::Infinite
        }
    } else {
        let magnitude: int = if exponent == 0 {
            fraction as int
        } else {
            (0x80_0000 + fraction) * pow2((exponent - 1) as nat)
        };
        Real::Finite(
            if negative {
                -magnitude
            } else {
                magnitude
            },
        )
    }
}

/// The number that an integer stands for.
pub open spec fn integer_number(n: int) -> Real {
    Real::Finite(n * pow2(149))
}

/// Whether `a` is less than `b`; never where one is not a number.
pub open spec fn less(a: Real, b: Real) -> bool {
    match (a, b) {
        (Real::NotANumber, _) => false,
        (_, Real::NotANumber) => false,
        (Real::Finite(x), Real::Finite(y)) => x < y,
        (Real::NegInfinite, _) => !(b is NegInfinite),
        (_, Real::Infinite) => !(a is Infinite),
        _ => false,
    }
}

/// Whether `a` and `b` are the same number; never where one is not a number.
pub open spec fn same_number(a: Real, b: Real) -> bool {
    !(a is NotANumber) && a == b
}

/// `n / d` to the nearest integer, and to the even one where two are as near.
pub open spec fn nearest(n: nat, d: nat) -> nat {
    let q = n / d;
    let r = n % d;
    if 2 * r < d || (2 * r == d && q % 2 == 0) {
        q
    } else {
        q + 1
    }
}

/// Whether `n / (d * 2^e)` has 53 binary digits before the point.
pub open spec fn scaled(n: nat, d: nat, e: nat) -> bool {
    pow2(52) * (d * pow2(e)) <= n < pow2(53) * (d * pow2(e))
}

/// The exponent `e` with which `n / (d * 2^e)` has 53 binary digits before the point.
pub open spec fn exponent_of(n: nat, d: nat) -> nat {
    choose|e: nat| scaled(n, d, e)
}

/// `n` to the nearest number with 53 significant binary digits.
pub open spec fn rounded(n: nat) -> nat {
    if n < pow2(53) {
        n
    } else {
        let unit = pow2(exponent_of(n, 1));
        nearest(n, unit) * unit
    }
}

/// Binary digits that are kept after the point of a quotient, before it is rounded.
pub open spec fn quotient_digits() -> nat {
    600
}

/// The double that is nearest to `1e-6`, as a multiple of `2^-72`.
pub open spec fn tolerance() -> nat {
    0x10_C6F7_A0B5_ED8D
}

/// Whether `m / 2^p` is farther than the tolerance from every integer.
pub open spec fn off_integer(m: nat, p: nat) -> bool {
    let above = m % pow2(p);
    let distance: int = if 2 * above <= pow2(p) {
        above as int
    } else {
        pow2(p) - above
    };
    distance * pow2(72) > tolerance() * pow2(p)
}

/// Whether `value`, which is above `minimum`, lies off the grid of the multiples of `step` above
/// `minimum`: whether `(value - minimum) / step`, with each of the two results rounded to a
/// double, is farther than `1e-6` from every integer.
pub open spec fn off_step(value: Real, minimum: Real, step: Real) -> bool {
    match (value, minimum, step) {
        (Real::Finite(v), Real::Finite(m), Real::Finite(s)) => {
            let difference = rounded((v - m) as nat) * pow2(quotient_digits());
            let size: nat = if s < 0 {
                (-s) as nat
            } else {
                s as nat
            };
            let e = exponent_of(difference, size);
            s != 0 && v > m && e < quotient_digits() && off_integer(
                nearest(difference, size * pow2(e)),
                (quotient_digits() - e) as nat,
            )
        },
        _ => false,
    }
}

/// A finite number: `mantissa * 2^(exponent - 149)`, or its negative.
#[derive(Clone, Copy)]
pub struct Dyadic {
    pub negative: bool,
    pub mantissa: u32,
    pub exponent: u32,
}

impl Dyadic {
    pub open spec fn magnitude(self) -> nat {
        self.mantissa as nat * pow2(self.exponent as nat)
    }

    pub open spec fn value(self) -> int {
        if self.negative {
            -(self.magnitude() as int)
        } else {
            self.magnitude() as int
        }
    }

    pub open spec fn wf(self) -> bool {
        self.mantissa <= 0x8000_0000 && self.exponent <= 253
    }
}

/// A number in executable form.
#[derive(Clone, Copy)]
pub enum Number {
    NotANumber,
    Infinite,
    NegInfinite,
    Finite(Dyadic),
}

impl View for Number {
    type V = Real;

    open spec fn view(&self) -> Real {
        match *self {
            Number::NotANumber => Real::NotANumber,
            Number::Infinite => Real::Infinite,
            Number::NegInfinite => Real::NegInfinite,
            Number::Finite(d) => Real::Finite(d.value()),
        }
    }
}

impl Number {
    pub open spec fn wf(self) -> bool {
        match self {
            Number::Finite(d) => d.wf(),
            _ => true,
        }
    }
}

/// The number that the bits of a 32-bit float stand for.
pub fn number_of_float(bits: u32) -> (r: Number)
    ensures
        r@ == float_number(bits),
        r.wf(),
{
    let negative = bits >= 0x8000_0000;
    let exponent: u32 = (bits / 0x80_0000) % 256;
    let fraction: u32 = bits % 0x80_0000;
    if exponent == 255 {
        if fraction != 0 {
            Number::NotANumber
        } else if negative {
            Number::NegInfinite
        } else {
            Number::Infinite
        }
    } else if exponent == 0 {
        proof {
            lemma2_to64();
            assert(fraction as nat * pow2(0) == fraction) by (nonlinear_arith)
                requires
                    pow2(0) == 1,
            ;
        }
        Number::Finite(Dyadic { negative, mantissa: fraction, exponent: 0 })
    } else {
        Number::Finite(
            Dyadic { negative, mantissa: 0x80_0000 + fraction, exponent: exponent - 1 },
        )
    }
}

/// The number that an integer stands for.
pub fn number_of_integer(n: i32) -> (r: Number)
    ensures
        r@ == integer_number(n as int),
        r.wf(),
{
    let negative = n < 0;
    let mantissa: u32 = if negative {
        (-(n as i64)) as u32
    } else {
        n as u32
    };
    assert((-n) * pow2(149) == -(n * pow2(149))) by (nonlinear_arith);
    Number::Finite(Dyadic { negative, mantissa, exponent: 149 })
}

/// A 32-bit float: its bits.
#[derive(Debug, Clone, Copy)]
pub struct Float32 {
    pub bits: u32,
}

impl View for Float32 {
    type V = Float32;

    open spec fn view(&self) -> Float32 {
        *self
    }
}

impl PartialEq for Float32 {
    fn eq(&self, other: &Self) -> (r: bool) {
        is_same_number(number_of_float(self.bits), number_of_float(other.bits))
    }
}

impl vstd::std_specs::cmp::PartialEqSpecImpl for Float32 {
    open spec fn obeys_eq_spec() -> bool {
        true
    }

    open spec fn eq_spec(&self, other: &Self) -> bool {
        same_number(float_number(self.bits), float_number(other.bits))
    }
}

/// A 64-bit float: its bits.
#[derive(Debug, Clone, Copy)]
pub struct Float64 {
    pub bits: u64,
}

/// Whether the bits of a 64-bit float stand for no number.
pub open spec fn is_nan64(bits: u64) -> bool {
    bits % 0x8000_0000_0000_0000 > 0x7FF0_0000_0000_0000
}

impl PartialEq for Float64 {
    fn eq(&self, other: &Self) -> (r: bool) {
        let left: u64 = self.bits % 0x8000_0000_0000_0000;
        let right: u64 = other.bits % 0x8000_0000_0000_0000;
        left <= 0x7FF0_0000_0000_0000 && right <= 0x7FF0_0000_0000_0000 && (self.bits == other.bits
            || (left == 0 && right == 0))
    }
}

impl vstd::std_specs::cmp::PartialEqSpecImpl for Float64 {
    open spec fn obeys_eq_spec() -> bool {
        true
    }

    open spec fn eq_spec(&self, other: &Self) -> bool {
        !is_nan64(self.bits) && !is_nan64(other.bits) && (self.bits == other.bits || (self.bits
            % 0x8000_0000_0000_0000 == 0 && other.bits % 0x8000_0000_0000_0000 == 0))
    }
}

/// `2^e`.
fn power(e: u32) -> (r: u128)
    requires
        e <= 126,
    ensures
        r == pow2(e as nat),
        r < 0x8000_0000_0000_0000_0000_0000_0000_0000,
{
    let mut r: u128 = 1;
    let mut i: u32 = 0;
    proof {
        lemma2_to64();
        lemma_power_126();
    }
    while i < e
        invariant
            i <= e <= 126,
            r == pow2(i as nat),
            pow2(126) == 0x4000_0000_0000_0000_0000_0000_0000_0000,
        decreases e - i,
    {
        proof {
            lemma_pow2_unfold((i + 1) as nat);
            lemma_pow2_strictly_increases(i as nat, 126);
        }
        r = r * 2;
        i += 1;
    }
    proof {
        if e < 126 {
            lemma_pow2_strictly_increases(e as nat, 126);
        }
    }
    r
}

proof fn lemma_power_126()
    ensures
        pow2(126) == 0x4000_0000_0000_0000_0000_0000_0000_0000,
        pow2(52) == 0x10_0000_0000_0000,
        pow2(53) == 0x20_0000_0000_0000,
        pow2(72) == 0x100_0000_0000_0000_0000,
{
    lemma2_to64();
    lemma2_to64_rest();
    lemma_pow2_adds(63, 63);
    lemma_pow2_adds(36, 36);
    lemma_pow2_adds(26, 26);
    lemma_pow2_adds(26, 27);
}

/// Whether the magnitude of `a` is less than that of `b`.
fn smaller(a: Dyadic, b: Dyadic) -> (r: bool)
    requires
        a.wf(),
        b.wf(),
    ensures
        r == (a.magnitude() < b.magnitude()),
{
    proof {
        lemma_pow2_pos(a.exponent as nat);
        lemma_pow2_pos(b.exponent as nat);
    }
    if a.exponent >= b.exponent {
        smaller_aligned(a, b, true)
    } else {
        !smaller_aligned(b, a, false)
    }
}

/// Compares `high`, which has the higher exponent, with `low`: whether it is less where `strict`
/// is set, whether it is at most that otherwise.
fn smaller_aligned(high: Dyadic, low: Dyadic, strict: bool) -> (r: bool)
    requires
        high.wf(),
        low.wf(),
        high.exponent >= low.exponent,
    ensures
        strict ==> r == (high.magnitude() < low.magnitude()),
        !strict ==> r == (high.magnitude() <= low.magnitude()),
{
    let gap: u32 = high.exponent - low.exponent;
    let ghost unit = pow2(low.exponent as nat) as int;
    let ghost factor = pow2(gap as nat) as int;
    let ghost h = high.mantissa as int;
    let ghost l = low.mantissa as int;
    proof {
        lemma_pow2_pos(low.exponent as nat);
        lemma_pow2_pos(gap as nat);
        lemma_pow2_adds(gap as nat, low.exponent as nat);
        assert(h * (factor * unit) == (h * factor) * unit) by (nonlinear_arith);
        assert((h * factor < l) == ((h * factor) * unit < l * unit)) by (nonlinear_arith)
            requires
                unit > 0,
        ;
        assert((h * factor <= l) == ((h * factor) * unit <= l * unit)) by (nonlinear_arith)
            requires
                unit > 0,
        ;
    }
    if gap > 32 {
        proof {
            lemma2_to64();
            lemma_pow2_strictly_increases(32, gap as nat);
            assert(h >= 1 ==> h * factor >= factor) by (nonlinear_arith)
                requires
                    factor > 0,
            ;
            assert(h == 0 ==> h * factor == 0) by (nonlinear_arith);
        }
        if high.mantissa == 0 {
            if strict {
                low.mantissa > 0
            } else {
                true
            }
        } else {
            false
        }
    } else {
        let scaled: u128 = {
            let f: u128 = power(gap);
            proof {
                lemma2_to64();
                if gap < 32 {
                    lemma_pow2_strictly_increases(gap as nat, 32);
                }
                assert(h * factor <= 0x8000_0000 * 0x1_0000_0000) by (nonlinear_arith)
                    requires
                        0 <= h <= 0x8000_0000,
                        0 <= factor <= 0x1_0000_0000,
                ;
            }
            high.mantissa as u128 * f
        };
        if strict {
            scaled < low.mantissa as u128
        } else {
            scaled <= low.mantissa as u128
        }
    }
}

/// Whether `a` is less than `b`.
pub fn is_less(a: Number, b: Number) -> (r: bool)
    requires
        a.wf(),
        b.wf(),
    ensures
        r == less(a@, b@),
{
    match (a, b) {
        (Number::NotANumber, _) => false,
        (_, Number::NotANumber) => false,
        (Number::Finite(x), Number::Finite(y)) => {
            if x.negative {
                if y.negative {
                    smaller(y, x)
                } else {
                    proof {
                        lemma_pow2_pos(x.exponent as nat);
                        lemma_pow2_pos(y.exponent as nat);
                        lemma_positive(x);
                        lemma_positive(y);
                    }
                    x.mantissa > 0 || y.mantissa > 0
                }
            } else if y.negative {
                false
            } else {
                smaller(x, y)
            }
        },
        (Number::NegInfinite, Number::NegInfinite) => false,
        (Number::NegInfinite, _) => true,
        (Number::Infinite, Number::Infinite) => false,
        (_, Number::Infinite) => true,
        _ => false,
    }
}

proof fn lemma_positive(x: Dyadic)
    ensures
        (x.magnitude() > 0) == (x.mantissa > 0),
{
    lemma_pow2_pos(x.exponent as nat);
    let m = x.mantissa as int;
    let p = pow2(x.exponent as nat) as int;
    assert((m * p > 0) == (m > 0)) by (nonlinear_arith)
        requires
            p > 0,
            m >= 0,
    ;
}

/// Whether `a` and `b` are the same number.
pub fn is_same_number(a: Number, b: Number) -> (r: bool)
    requires
        a.wf(),
        b.wf(),
    ensures
        r == same_number(a@, b@),
{
    match (a, b) {
        (Number::NotANumber, _) => false,
        (_, Number::NotANumber) => false,
        _ => !is_less(a, b) && !is_less(b, a),
    }
}

proof fn lemma_exponent_unique(n: nat, d: nat, e: nat, f: nat)
    requires
        scaled(n, d, e),
        scaled(n, d, f),
    ensures
        e == f,
{
    if e < f {
        lemma_exponent_order(n, d, e, f);
    } else if f < e {
        lemma_exponent_order(n, d, f, e);
    }
}

proof fn lemma_exponent_order(n: nat, d: nat, e: nat, f: nat)
    requires
        scaled(n, d, e),
        e < f,
    ensures
        !scaled(n, d, f),
{
    lemma_power_126();
    lemma_pow2_pos(e);
    lemma_pow2_adds(e, (f - e) as nat);
    lemma_pow2_unfold((f - e) as nat);
    lemma_pow2_pos((f - e - 1) as nat);
    let a = pow2(e) as int;
    let g = pow2((f - e - 1) as nat) as int;
    let k = d as int;
    assert(pow2(f) == a * (2 * g));
    assert(0x10_0000_0000_0000 * (k * (a * (2 * g))) >= 0x20_0000_0000_0000 * (k * a))
        by (nonlinear_arith)
        requires
            a > 0,
            g >= 1,
            k >= 0,
    ;
}

proof fn lemma_exponent_exists(n: nat, d: nat, e: nat)
    requires
        d > 0,
        pow2(52) * (d * pow2(e)) <= n,
    ensures
        scaled(n, d, exponent_of(n, d)),
    decreases n - d * pow2(e),
{
    if n < pow2(53) * (d * pow2(e)) {
        assert(scaled(n, d, e));
    } else {
        lemma_power_126();
        lemma_pow2_pos(e);
        lemma_pow2_unfold(e + 1);
        let k = d as int;
        let a = pow2(e) as int;
        assert(0x10_0000_0000_0000 * (k * (2 * a)) == 0x20_0000_0000_0000 * (k * a))
            by (nonlinear_arith);
        assert(k * a > 0) by (nonlinear_arith)
            requires
                k > 0,
                a > 0,
        ;
        assert(pow2(52) * (d * pow2(e + 1)) == 0x20_0000_0000_0000 * (k * a));
        assert(k * (2 * a) == 2 * (k * a)) by (nonlinear_arith);
        assert(pow2(53) * (d * pow2(e)) == 0x20_0000_0000_0000 * (k * a));
        lemma_exponent_exists(n, d, e + 1);
    }
}

proof fn lemma_nearest_scale(n: nat, d: nat, c: nat)
    requires
        d > 0,
        c > 0,
    ensures
        nearest(n * c, d * c) == nearest(n, d),
{
    lemma_truncate_middle(n as int, c as int, d as int);
    lemma_div_multiples_vanish_quotient(c as int, n as int, d as int);
    assert(c * n == n * c) by (nonlinear_arith);
    assert(c * d == d * c) by (nonlinear_arith);
    let r = n as int % d as int;
    let k = c as int;
    let e = d as int;
    assert((2 * (k * r) < e * k) == (2 * r < e)) by (nonlinear_arith)
        requires
            k > 0,
    ;
    assert((2 * (k * r) == e * k) == (2 * r == e)) by (nonlinear_arith)
        requires
            k > 0,
    ;
}

proof fn lemma_nearest_close(q: int, d: nat, c: int)
    requires
        d > 0,
        q >= 0,
        -(d as int) < 2 * c < d,
        q * d + c >= 0,
    ensures
        nearest((q * d + c) as nat, d) == q,
{
    let n = q * d + c;
    if c >= 0 {
        lemma_fundamental_div_mod_converse(n, d as int, q, c);
    } else {
        assert((q - 1) * d + (d + c) == n) by (nonlinear_arith)
            requires
                n == q * d + c,
        ;
        lemma_fundamental_div_mod_converse(n, d as int, q - 1, d + c);
    }
}

proof fn lemma_rounded_exact(n: nat, x: nat)
    requires
        n < pow2(53),
    ensures
        rounded(n * pow2(x)) == n * pow2(x),
{
    let v = n * pow2(x);
    lemma_power_126();
    lemma_pow2_pos(x);
    if v >= pow2(53) {
        lemma2_to64();
        lemma_exponent_exists(v, 1, 0);
        let e = exponent_of(v, 1);
        let a = pow2(x) as int;
        let m = n as int;
        assert(m * a < 0x20_0000_0000_0000 * a) by (nonlinear_arith)
            requires
                m < 0x20_0000_0000_0000,
                a > 0,
        ;
        if e > x {
            lemma_pow2_unfold(e);
            if x < e - 1 {
                lemma_pow2_strictly_increases(x, (e - 1) as nat);
            }
        }
        lemma_pow2_adds(e, (x - e) as nat);
        lemma_pow2_pos(e);
        let u = pow2(e) as int;
        let w = pow2((x - e) as nat) as int;
        assert(m * (u * w) == (m * w) * u) by (nonlinear_arith);
        assert(m * w >= 0) by (nonlinear_arith)
            requires
                m >= 0,
                w >= 0,
        ;
        lemma_nearest_close(m * w, u as nat, 0);
    }
}

proof fn lemma_rounded_scale(n: nat, k: nat, x: nat)
    requires
        n >= pow2(53),
        scaled(n, 1, k),
    ensures
        rounded(n * pow2(x)) == nearest(n, pow2(k)) * pow2(k + x),
{
    let c = pow2(x) as int;
    let u = pow2(k) as int;
    let m = n as int;
    lemma_power_126();
    lemma_pow2_pos(x);
    lemma_pow2_pos(k);
    lemma_pow2_adds(k, x);
    assert(m * c >= m) by (nonlinear_arith)
        requires
            c >= 1,
            m >= 0,
    ;
    assert(0x10_0000_0000_0000 * (1 * (u * c)) <= m * c < 0x20_0000_0000_0000 * (1 * (u * c)))
        by (nonlinear_arith)
        requires
            0x10_0000_0000_0000 * (1 * u) <= m < 0x20_0000_0000_0000 * (1 * u),
            c > 0,
    ;
    assert(scaled(n * pow2(x), 1, k + x));
    lemma_exponent_unique(n * pow2(x), 1, k + x, exponent_of(n * pow2(x), 1));
    lemma_nearest_scale(n, pow2(k), pow2(x));
}

/// A number with few digits stays what it is when one that is far smaller joins it.
proof fn lemma_rounded_absorbs(h: nat, high: nat, low: nat, c: int)
    requires
        0 < h <= 0x8000_0000,
        high > low + 90,
        -(0x8000_0000 * pow2(low)) <= c <= 0x8000_0000 * pow2(low),
    ensures
        h * pow2(high) + c > 0,
        rounded((h * pow2(high) + c) as nat) == h * pow2(high),
{
    lemma2_to64();
    lemma_power_126();
    lemma_pow2_pos(low);
    let gap = (high - low) as nat;
    lemma_pow2_adds(low, gap);
    lemma_pow2_strictly_increases(90, gap);
    lemma_pow2_adds(45, 45);
    lemma2_to64_rest();
    let b = pow2(low) as int;
    let g = pow2(gap) as int;
    let a = pow2(high) as int;
    let m = h as int;
    assert(a == b * g);
    assert(a >= b * 0x400_0000_0000_0000_0000_0000) by (nonlinear_arith)
        requires
            a == b * g,
            g >= 0x400_0000_0000_0000_0000_0000,
            b > 0,
    ;
    assert(m * a >= a) by (nonlinear_arith)
        requires
            m >= 1,
            a > 0,
    ;
    assert(m * a <= 0x8000_0000 * a) by (nonlinear_arith)
        requires
            m <= 0x8000_0000,
            a > 0,
    ;
    let n = (m * a + c) as nat;
    assert(n >= a / 2);
    lemma_exponent_exists(n, 1, 0);
    let e = exponent_of(n, 1);
    let u = pow2(e) as int;
    assert(u * 0x10_0000_0000_0000 <= n < u * 0x20_0000_0000_0000);
    // The rounding unit divides the large term.
    if e > high {
        lemma_pow2_strictly_increases(high, e);
    }
    lemma_pow2_adds(e, (high - e) as nat);
    let w = pow2((high - e) as nat) as int;
    assert(m * (u * w) == (m * w) * u) by (nonlinear_arith);
    assert(m * w >= 0) by (nonlinear_arith)
        requires
            m >= 0,
            w >= 0,
    ;
    // And the small term is less than half of it.
    assert(2 * c < u && -u < 2 * c);
    lemma_nearest_close(m * w, u as nat, c);
}

/// `n / d` to the nearest integer, and to the even one where two are as near.
fn divide_nearest(n: u128, d: u128) -> (r: u128)
    requires
        0 < d < 0x8000_0000_0000_0000_0000_0000_0000_0000,
        n < 0x8000_0000_0000_0000_0000_0000_0000_0000,
    ensures
        r == nearest(n as nat, d as nat),
        r <= n / d + 1,
{
    let q: u128 = n / d;
    let r: u128 = n % d;
    proof {
        assert(n / d <= n) by (nonlinear_arith)
            requires
                d > 0,
        ;
        lemma_mod_bound(n as int, d as int);
    }
    if r < d - r || (r == d - r && q % 2 == 0) {
        q
    } else {
        q + 1
    }
}

/// The sum of two numbers, of which `high` has the higher exponent, rounded to a double: a
/// mantissa and a power of two.
fn rounded_sum(high: Dyadic, low: Dyadic) -> (r: (u64, u32))
    requires
        high.wf(),
        low.wf(),
        high.exponent >= low.exponent,
        high.value() + low.value() > 0,
    ensures
        rounded((high.value() + low.value()) as nat) == r.0 * pow2(r.1 as nat),
        0 < r.0 < 0x20_0000_0000_0000,
        r.1 <= 400,
{
    let gap: u32 = high.exponent - low.exponent;
    let ghost h = high.mantissa as int;
    let ghost l = low.mantissa as int;
    let ghost a = pow2(high.exponent as nat) as int;
    let ghost b = pow2(low.exponent as nat) as int;
    let ghost total = high.value() + low.value();
    proof {
        lemma_power_126();
        lemma_pow2_pos(high.exponent as nat);
        lemma_pow2_pos(low.exponent as nat);
        lemma_positive(high);
        lemma_positive(low);
        assert(0 <= l * b <= 0x8000_0000 * b) by (nonlinear_arith)
            requires
                0 <= l <= 0x8000_0000,
                b > 0,
        ;
    }
    if high.mantissa == 0 {
        proof {
            lemma_rounded_exact(low.mantissa as nat, low.exponent as nat);
        }
        return (low.mantissa as u64, low.exponent);
    }
    if gap > 90 {
        proof {
            let c = if low.negative {
                -(l * b)
            } else {
                l * b
            };
            lemma_rounded_absorbs(h as nat, high.exponent as nat, low.exponent as nat, c);
            lemma_rounded_absorbs(h as nat, high.exponent as nat, low.exponent as nat, -c);
        }
        return (high.mantissa as u64, high.exponent);
    }
    let f: u128 = power(gap);
    proof {
        lemma_pow2_adds(gap as nat, low.exponent as nat);
        lemma2_to64();
        lemma2_to64_rest();
        lemma_pow2_adds(45, 45);
        if gap < 90 {
            lemma_pow2_strictly_increases(gap as nat, 90);
        }
        assert(h * f <= 0x8000_0000 * 0x400_0000_0000_0000_0000_0000) by (nonlinear_arith)
            requires
                0 <= h <= 0x8000_0000,
                0 <= f <= 0x400_0000_0000_0000_0000_0000,
        ;
        assert(h * (f * b) == (h * f) * b) by (nonlinear_arith);
        assert((h * f) * b + l * b == (h * f + l) * b) by (nonlinear_arith);
        assert((h * f) * b - l * b == (h * f - l) * b) by (nonlinear_arith);
        assert(l * b - (h * f) * b == (l - h * f) * b) by (nonlinear_arith);
    }
    let big: u128 = high.mantissa as u128 * f;
    let small: u128 = low.mantissa as u128;
    proof {
        let hf = h * f;
        assert((hf - l) * b > 0 ==> hf - l > 0) by (nonlinear_arith)
            requires
                b > 0,
        ;
        assert((l - hf) * b > 0 ==> l - hf > 0) by (nonlinear_arith)
            requires
                b > 0,
        ;
        assert((hf + l) * b > 0 ==> hf + l > 0) by (nonlinear_arith)
            requires
                b > 0,
        ;
    }
    let n: u128 = if high.negative {
        small - big
    } else if low.negative {
        big - small
    } else {
        big + small
    };
    assert(n * b == total && n > 0);
    if n < 0x20_0000_0000_0000 {
        proof {
            lemma_rounded_exact(n as nat, low.exponent as nat);
        }
        return (n as u64, low.exponent);
    }
    let mut k: u32 = 0;
    let mut unit: u128 = 1;
    proof {
        lemma_pow2_adds(50, 50);
    }
    while n / unit >= 0x20_0000_0000_0000
        invariant
            unit == pow2(k as nat),
            0 < unit <= n,
            k <= 100,
            unit * 0x10_0000_0000_0000 <= n,
            0x20_0000_0000_0000 <= n < 0x400_0000_0000_0000_0000_0000_0000_0000,
            pow2(100) == 0x10_0000_0000_0000_0000_0000_0000,
        decreases n - unit,
    {
        proof {
            lemma_pow2_unfold((k + 1) as nat);
            lemma_fundamental_div_mod(n as int, unit as int);
            let q = n as int / unit as int;
            let v = unit as int;
            assert(v * q >= v * 0x20_0000_0000_0000) by (nonlinear_arith)
                requires
                    q >= 0x20_0000_0000_0000,
                    v > 0,
            ;
        }
        unit = unit * 2;
        k = k + 1;
    }
    let m: u128 = divide_nearest(n, unit);
    proof {
        lemma_fundamental_div_mod(n as int, unit as int);
        let q = n as int / unit as int;
        let v = unit as int;
        assert(v * q + v <= v * 0x20_0000_0000_0000) by (nonlinear_arith)
            requires
                q < 0x20_0000_0000_0000,
                v > 0,
        ;
        assert(scaled(n as nat, 1, k as nat));
        lemma_rounded_scale(n as nat, k as nat, low.exponent as nat);
        lemma_pow2_unfold((k + low.exponent + 1) as nat);
        let z = pow2((k + low.exponent) as nat) as int;
        assert(m == 0x20_0000_0000_0000 ==> m * z == 0x10_0000_0000_0000 * (2 * z))
            by (nonlinear_arith);
        assert(q >= 0x10_0000_0000_0000) by (nonlinear_arith)
            requires
                v * 0x10_0000_0000_0000 <= v * q + n as int % v,
                0 <= n as int % v < v,
        ;
    }
    if m == 0x20_0000_0000_0000 {
        (0x10_0000_0000_0000, low.exponent + k + 1)
    } else {
        (m as u64, low.exponent + k)
    }
}

/// The quotient of `n * 2^x` and the magnitude of `step`, rounded to a double: whether it is
/// farther than the tolerance from every integer.
fn quotient_off_integer(n: u64, x: u32, step: Dyadic) -> (r: bool)
    requires
        0 < n < 0x20_0000_0000_0000,
        x <= 400,
        step.wf(),
        step.mantissa > 0,
    ensures
        ({
            let difference = (n * pow2(x as nat)) as nat * pow2(quotient_digits());
            let e = exponent_of(difference, step.magnitude());
            r == (e < quotient_digits() && off_integer(
                nearest(difference, step.magnitude() * pow2(e)),
                (quotient_digits() - e) as nat,
            ))
        }),
{
    let d: u128 = step.mantissa as u128;
    let mut j: u32 = 0;
    let mut m: u128 = n as u128;
    let ghost n0 = n as int;
    proof {
        lemma2_to64();
        lemma2_to64_rest();
        lemma_power_126();
        lemma_pow2_adds(50, 50);
        assert(n0 * 1 == n0);
    }
    while m < d * 0x10_0000_0000_0000
        invariant
            1 <= d <= 0x8000_0000,
            m == n0 * pow2(j as nat),
            n0 >= 1,
            0 < m < d * 0x20_0000_0000_0000,
            j <= 100,
            pow2(100) == 0x10_0000_0000_0000_0000_0000_0000,
        decreases d * 0x20_0000_0000_0000 - m,
    {
        proof {
            lemma_pow2_unfold((j + 1) as nat);
            let a = pow2(j as nat) as int;
            assert(n0 * (2 * a) == 2 * (n0 * a)) by (nonlinear_arith);
            assert(n0 * a >= a) by (nonlinear_arith)
                requires
                    n0 >= 1,
                    a >= 0,
            ;
        }
        m = m * 2;
        j = j + 1;
    }
    let e: u32 = 600 + x - j - step.exponent;
    let ghost difference = (n * pow2(x as nat)) as nat * pow2(quotient_digits());
    let ghost c = pow2((600 + x - j) as nat);
    proof {
        let s = step.magnitude();
        let a = pow2(j as nat) as int;
        let b = pow2(x as nat) as int;
        let t = pow2(600) as int;
        let g = pow2(step.exponent as nat) as int;
        let w = pow2(e as nat) as int;
        lemma_pow2_pos((600 + x - j) as nat);
        lemma_pow2_adds(x as nat, 600);
        lemma_pow2_adds(j as nat, (600 + x - j) as nat);
        lemma_pow2_adds(step.exponent as nat, e as nat);
        assert((n0 * b) * t == n0 * (b * t)) by (nonlinear_arith);
        assert(n0 * (a * c) == (n0 * a) * c) by (nonlinear_arith);
        assert(difference == m as nat * c);
        let k = d as int;
        assert((k * g) * w == k * (g * w)) by (nonlinear_arith);
        assert(s * pow2(e as nat) == d as nat * c);
        let y = m as int;
        let z = c as int;
        assert(0x10_0000_0000_0000 * (k * z) <= y * z < 0x20_0000_0000_0000 * (k * z))
            by (nonlinear_arith)
            requires
                k * 0x10_0000_0000_0000 <= y < k * 0x20_0000_0000_0000,
                z > 0,
        ;
        assert(scaled(difference, s, e as nat));
        lemma_exponent_unique(difference, s, e as nat, exponent_of(difference, s));
        lemma_nearest_scale(m as nat, d as nat, c);
    }
    let q: u128 = divide_nearest(m, d);
    proof {
        lemma_fundamental_div_mod(m as int, d as int);
        let y = m as int;
        let k = d as int;
        assert(y / k < 0x20_0000_0000_0000) by (nonlinear_arith)
            requires
                k > 0,
                y < k * 0x20_0000_0000_0000,
                y == k * (y / k) + y % k,
                0 <= y % k,
        ;
    }
    if e >= 600 {
        false
    } else {
        distant(q, 600 - e)
    }
}

/// Whether `m / 2^p` is farther than the tolerance from every integer.
fn distant(m: u128, p: u32) -> (r: bool)
    requires
        m <= 0x20_0000_0000_0000,
    ensures
        r == off_integer(m as nat, p as nat),
{
    proof {
        lemma_power_126();
        lemma2_to64();
    }
    if p > 72 {
        proof {
            lemma_pow2_strictly_increases(72, p as nat);
            lemma_pow2_unfold(p as nat);
            lemma_small_mod(m as nat, pow2(p as nat));
            if p > 73 {
                lemma_pow2_strictly_increases(73, p as nat);
            } else {
                lemma_pow2_unfold(73);
            }
            lemma_pow2_unfold(73);
        }
        false
    } else {
        let unit: u128 = power(p);
        proof {
            if p < 72 {
                lemma_pow2_strictly_increases(p as nat, 72);
            }
            lemma_pow2_pos(p as nat);
        }
        let above: u128 = m % unit;
        proof {
            lemma_mod_bound(m as int, unit as int);
            lemma_mod_decreases(m as nat, unit as nat);
        }
        let distance: u128 = if above <= unit - above {
            above
        } else {
            unit - above
        };
        let ghost u = unit as int;
        assert(0x10_C6F7_A0B5_ED8D * u == tolerance() * pow2(p as nat));
        distance * 0x100_0000_0000_0000_0000 > 0x10_C6F7_A0B5_ED8D * unit
    }
}

/// Whether `value`, a finite number at or above `minimum`, lies off the grid of the multiples of
/// `step` above `minimum`.
pub fn is_off_step(value: Number, minimum: Number, step: Number) -> (r: bool)
    requires
        value.wf(),
        minimum.wf(),
        step.wf(),
    ensures
        r == off_step(value@, minimum@, step@),
{
    match (value, minimum, step) {
        (Number::Finite(v), Number::Finite(m), Number::Finite(s)) => {
            proof {
                lemma_positive(s);
            }
            if s.mantissa == 0 || !is_less(minimum, value) {
                return false;
            }
            let n = Dyadic { negative: !m.negative, mantissa: m.mantissa, exponent: m.exponent };
            let d: (u64, u32) = if v.exponent >= n.exponent {
                rounded_sum(v, n)
            } else {
                rounded_sum(n, v)
            };
            quotient_off_integer(d.0, d.1, s)
        },
        _ => false,
    }
}

/// Integers are ordered as integers are.
pub proof fn law_integers_are_ordered(left: int, right: int)
    ensures
        less(integer_number(left), integer_number(right)) == (left < right),
        same_number(integer_number(left), integer_number(right)) == (left == right),
{
    lemma_pow2_pos(149);
    let a = pow2(149) as int;
    assert((left * a < right * a) == (left < right)) by (nonlinear_arith)
        requires
            a > 0,
    ;
    assert((left * a == right * a) == (left == right)) by (nonlinear_arith)
        requires
            a > 0,
    ;
}

/// Of two numbers, one is less than the other or they are the same; never more than one of the
/// three holds, and none where one is not a number.
pub proof fn law_numbers_are_ordered(left: Real, right: Real)
    ensures
        !(left is NotANumber) && !(right is NotANumber) <==> less(left, right) || less(right, left)
            || same_number(left, right),
        less(left, right) ==> !less(right, left) && !same_number(left, right),
{
}

proof fn lemma_step_quotient(difference: nat, step: nat)
    requires
        0 < difference < pow2(53),
        0 < step,
        step <= pow2(53),
    ensures
        ({
            let d = difference * pow2(149);
            let n = d * pow2(600);
            let size = step * pow2(149);
            let e = exponent_of(n, size);
            &&& rounded(d) == d
            &&& size > 0
            &&& scaled(n, size, e)
            &&& e < 600 ==> {
                let unit = pow2((600 - e) as nat);
                let c = pow2(149) * pow2(e);
                &&& n == (difference * unit) * c
                &&& size * pow2(e) == step * c
                &&& c > 0
                &&& unit > 0
                &&& nearest(n, size * pow2(e)) == nearest(difference * unit, step)
                &&& pow2(52) * step <= difference * unit < pow2(53) * step
            }
        }),
{
    lemma_pow2_pos(149);
    lemma_pow2_pos(600);
    lemma_power_126();
    lemma_rounded_exact(difference, 149);
    let a = pow2(149) as int;
    let t = pow2(600) as int;
    let f = difference as int;
    let s = step as int;
    let d = difference * pow2(149);
    let n = d * pow2(600);
    let size = step * pow2(149);
    assert(s * a > 0 && f * a > 0) by (nonlinear_arith)
        requires
            s > 0,
            f > 0,
            a > 0,
    ;
    lemma_pow2_adds(52, 548);
    lemma_pow2_adds(54, 494);
    lemma_pow2_pos(494);
    lemma_pow2_unfold(54);
    assert(pow2(52) * (size * pow2(0)) <= n) by {
        lemma2_to64();
        let b = pow2(548) as int;
        assert(b >= s) by {
            assert(0x40_0000_0000_0000 * pow2(494) >= 0x40_0000_0000_0000) by (nonlinear_arith)
                requires
                    pow2(494) >= 1,
            ;
        }
        assert((f * a) * (0x10_0000_0000_0000 * b) >= 0x10_0000_0000_0000 * ((s * a) * 1))
            by (nonlinear_arith)
            requires
                f >= 1,
                a >= 1,
                b >= s,
                s >= 1,
        ;
    }
    lemma_exponent_exists(n, size, 0);
    let e = exponent_of(n, size);
    if e < 600 {
        let unit = pow2((600 - e) as nat) as int;
        let w = pow2(e) as int;
        let c = pow2(149) * pow2(e);
        lemma_pow2_adds(e, (600 - e) as nat);
        lemma_pow2_pos(e);
        lemma_pow2_pos((600 - e) as nat);
        assert((f * a) * (w * unit) == (f * unit) * (a * w)) by (nonlinear_arith);
        assert((s * a) * w == s * (a * w)) by (nonlinear_arith);
        assert(a * w > 0) by (nonlinear_arith)
            requires
                a > 0,
                w > 0,
        ;
        assert(f * unit >= 0) by (nonlinear_arith)
            requires
                f > 0,
                unit > 0,
        ;
        lemma_nearest_scale((difference * pow2((600 - e) as nat)) as nat, step, c);
        let x = f * unit;
        let z = a * w;
        assert(0x10_0000_0000_0000 * s <= x && x < 0x20_0000_0000_0000 * s) by (nonlinear_arith)
            requires
                0x10_0000_0000_0000 * (s * z) <= x * z,
                x * z < 0x20_0000_0000_0000 * (s * z),
                z > 0,
        ;
    }
}

/// A number that lies a whole count of steps above the minimum is on a step.
pub proof fn law_multiple_of_step_is_on_step(minimum: int, step: nat, count: nat)
    requires
        step * count < pow2(53),
        step <= pow2(53),
    ensures
        !off_step(
            integer_number(minimum + step * count),
            integer_number(minimum),
            integer_number(step as int),
        ),
{
    lemma_pow2_pos(149);
    let difference = step * count;
    let a = pow2(149) as int;
    assert((minimum + difference) * a - minimum * a == difference * a) by (nonlinear_arith);
    if step > 0 && count > 0 {
        let s = step as int;
        let k = count as int;
        assert(s * k > 0) by (nonlinear_arith)
            requires
                s > 0,
                k > 0,
        ;
        lemma_step_quotient(difference, step);
        let n = difference * pow2(149) * pow2(600);
        let e = exponent_of(n, step * pow2(149));
        if e < 600 {
            let unit = pow2((600 - e) as nat);
            let u = unit as int;
            assert((s * k) * u == (k * u) * s) by (nonlinear_arith);
            assert(k * u >= 0) by (nonlinear_arith)
                requires
                    k > 0,
                    u > 0,
            ;
            lemma_nearest_close(k * u, step, 0);
            lemma_mod_multiples_basic(k, u);
            assert(0 * pow2(72) == 0);
            assert(tolerance() * unit >= 0) by (nonlinear_arith)
                requires
                    tolerance() >= 0,
                    unit >= 0,
            ;
        }
    } else {
        assert(difference == 0) by (nonlinear_arith)
            requires
                difference == step * count,
                step == 0 || count == 0,
        ;
        assert(0 * a == 0);
    }
}

/// Where the step is at most 65536, a number of 32 bits that lies between two steps is off them.
pub proof fn law_number_between_steps_is_off_step(minimum: int, step: nat, count: nat, rest: nat)
    requires
        0 < rest < step <= 0x1_0000,
        step * count + rest < 0x1_0000_0000,
    ensures
        off_step(
            integer_number(minimum + step * count + rest),
            integer_number(minimum),
            integer_number(step as int),
        ),
{
    lemma_pow2_pos(149);
    lemma_power_126();
    let difference = (step * count + rest) as nat;
    let a = pow2(149) as int;
    let f = difference as int;
    let s = step as int;
    assert((minimum + f) * a - minimum * a == f * a) by (nonlinear_arith);
    assert(f > 0) by (nonlinear_arith)
        requires
            f == s * count + rest,
            s > 0,
            count >= 0,
            rest > 0,
    ;
    assert(f * a > 0) by (nonlinear_arith)
        requires
            f > 0,
            a > 0,
    ;
    assert(s * a > 0) by (nonlinear_arith)
        requires
            s > 0,
            a > 0,
    ;
    lemma_step_quotient(difference, step);
    let n = difference * pow2(149) * pow2(600);
    let e = exponent_of(n, step * pow2(149));
    // The quotient is below 2^32, so that at least 20 of its digits follow the point.
    lemma_few_digits(difference, step, e, n);
    let p = (600 - e) as nat;
    let unit = pow2(p) as int;
    lemma2_to64();
    if p > 20 {
        lemma_pow2_strictly_increases(20, p);
    }
    let x = f * unit;
    let m = nearest((difference * pow2(p)) as nat, step);
    lemma_fundamental_div_mod(x, s);
    lemma_mod_bound(x, s);
    let close = m * s - x;
    assert(-s <= 2 * close <= s) by {
        let q = x / s;
        let r = x % s;
        assert(q * s == s * q) by (nonlinear_arith);
        assert((q + 1) * s == s * q + s) by (nonlinear_arith);
    }
    // Every multiple of the unit is far from the rounded quotient.
    let k = m as int / unit;
    let above = m as int % unit;
    lemma_fundamental_div_mod(m as int, unit);
    lemma_mod_bound(m as int, unit);
    lemma_far(f, s, unit, m as int, k, above, close, count as int, rest as int);
}

proof fn lemma_few_digits(difference: nat, step: nat, e: nat, n: nat)
    requires
        0 < difference < 0x1_0000_0000,
        step > 0,
        n == difference * pow2(149) * pow2(600),
        e == exponent_of(n, step * pow2(149)),
        scaled(n, step * pow2(149), e),
    ensures
        e <= 580,
{
    lemma_power_126();
    lemma2_to64();
    lemma_pow2_pos(149);
    lemma_pow2_adds(20, 580);
    lemma_pow2_pos(580);
    if e > 580 {
        lemma_pow2_strictly_increases(580, e);
        let a = pow2(149) as int;
        let b = pow2(580) as int;
        let w = pow2(e) as int;
        let f = difference as int;
        let s = step as int;
        assert(f * a < 0x1_0000_0000 * a) by (nonlinear_arith)
            requires
                f < 0x1_0000_0000,
                a > 0,
        ;
        assert((f * a) * (0x10_0000 * b) < (0x1_0000_0000 * a) * (0x10_0000 * b))
            by (nonlinear_arith)
            requires
                f * a < 0x1_0000_0000 * a,
                b > 0,
        ;
        assert((0x1_0000_0000 * a) * (0x10_0000 * b) == 0x10_0000_0000_0000 * (a * b))
            by (nonlinear_arith);
        assert((s * a) * w >= a * b) by (nonlinear_arith)
            requires
                s >= 1,
                a > 0,
                w > b,
                b > 0,
        ;
    }
}

proof fn lemma_far(
    f: int,
    s: int,
    unit: int,
    m: int,
    k: int,
    above: int,
    close: int,
    count: int,
    rest: int,
)
    requires
        f == s * count + rest,
        0 < rest < s <= 0x1_0000,
        unit >= 0x10_0000,
        m == unit * k + above,
        0 <= above < unit,
        close == m * s - f * unit,
        -s <= 2 * close <= s,
    ensures
        ({
            let distance = if 2 * above <= unit {
                above
            } else {
                unit - above
            };
            distance * 0x100_0000_0000_0000_0000 > 0x10_C6F7_A0B5_ED8D * unit
        }),
{
    let distance = if 2 * above <= unit {
        above
    } else {
        unit - above
    };
    // The nearest multiple of the unit, and how far the exact quotient is from it.
    let j = if 2 * above <= unit {
        k
    } else {
        k + 1
    };
    assert(m - unit * j == distance || m - unit * j == -distance) by (nonlinear_arith)
        requires
            m == unit * k + above,
            j == k && distance == above || j == k + 1 && distance == unit - above,
    ;
    let gap = f - s * j;
    assert(gap != 0) by {
        if gap == 0 {
            assert(s * (j - count) == rest) by (nonlinear_arith)
                requires
                    s * count + rest == s * j,
            ;
            assert(false) by (nonlinear_arith)
                requires
                    s * (j - count) == rest,
                    0 < rest < s,
            ;
        }
    }
    assert((m - unit * j) * s == gap * unit + close) by (nonlinear_arith)
        requires
            close == m * s - f * unit,
            gap == f - s * j,
    ;
    assert(distance * s >= unit - s) by (nonlinear_arith)
        requires
            (m - unit * j) * s == gap * unit + close,
            m - unit * j == distance || m - unit * j == -distance,
            gap != 0,
            -s <= 2 * close <= s,
            s > 0,
            unit > 0,
            distance >= 0,
    ;
    assert(distance * 0x1_0000 >= unit - s) by (nonlinear_arith)
        requires
            distance * s >= unit - s,
            s <= 0x1_0000,
            distance >= 0,
    ;
}

/// Rounding to the nearest integer moves a quotient by at most a half, and one that lies halfway
/// goes to the even integer.
pub proof fn law_rounding_to_an_integer(n: nat, d: nat)
    requires
        d > 0,
    ensures
        2 * (n - d * nearest(n, d)) <= d,
        2 * (d * nearest(n, d) - n) <= d,
        2 * (n - d * nearest(n, d)) == d || 2 * (d * nearest(n, d) - n) == d ==> nearest(n, d) % 2
            == 0,
{
    lemma_fundamental_div_mod(n as int, d as int);
    lemma_mod_division_less_than_divisor(n as int, d as int);
    let q = (n / d) as int;
    let e = d as int;
    assert(e * (q + 1) == e * q + e) by (nonlinear_arith);
}

/// A whole number of at most 53 binary digits is a double. A longer one is rounded to a multiple of
/// the power of two that leaves it 53 digits, and moved by at most half of that.
pub proof fn law_rounding_to_a_double(n: nat)
    ensures
        n < pow2(53) ==> rounded(n) == n,
        n >= pow2(53) ==> {
            let unit = pow2(exponent_of(n, 1));
            &&& pow2(52) * unit <= n < pow2(53) * unit
            &&& rounded(n) % unit == 0
            &&& 2 * (n - rounded(n)) <= unit
            &&& 2 * (rounded(n) - n) <= unit
        },
{
    if n >= pow2(53) {
        lemma2_to64();
        lemma_power_126();
        assert(1 * pow2(0) == 1);
        assert(pow2(52) * 1 == pow2(52));
        lemma_pow2_strictly_increases(52, 53);
        lemma_exponent_exists(n, 1, 0);
        let e = exponent_of(n, 1);
        let unit = pow2(e);
        lemma_pow2_pos(e);
        assert(1 * unit == unit);
        law_rounding_to_an_integer(n, unit);
        let m = nearest(n, unit);
        assert(m * unit == unit * m) by (nonlinear_arith);
        lemma_mod_multiples_basic(m as int, unit as int);
    }
}

} // verus!
