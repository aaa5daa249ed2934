//! The decimal text of a 32-bit float: the shortest one that reads back as the same float.
//!
//! Every finite float, and every point halfway between two neighbouring ones, is a multiple of
//! `2^-150`, hence of `10^-150`: numbers are counted here in units of `10^-150`, and held as their
//! decimal digits.

use crate::number::{float_number, Real};
use crate::text::{decimal, digit, to_digit};
use vstd::arithmetic::div_mod::*;
use vstd::arithmetic::power2::*;
use vstd::prelude::*;

pub mod reading;
pub mod round_trip;

verus! {

/// `10^t`.
pub open spec fn pow10(t: nat) -> nat
    decreases t,
{
    if t == 0 {
        1
    } else {
        10 * pow10((t - 1) as nat)
    }
}

/// `5^t`.
pub open spec fn pow5(t: nat) -> nat
    decreases t,
{
    if t == 0 {
        1
    } else {
        5 * pow5((t - 1) as nat)
    }
}

/// Decimal places that are counted.
pub open spec fn places() -> nat {
    150
}

/// The float with the bits `bits`, as a multiple of `2^-149`: its sign is clear, and past the
/// largest finite float comes `2^128`.
pub open spec fn magnitude(bits: nat) -> nat {
    if bits < 0x80_0000 {
        bits
    } else {
        (0x80_0000 + bits % 0x80_0000) * pow2((bits / 0x80_0000 - 1) as nat)
    }
}

/// The float with the bits `bits`, in units of `10^-150`.
pub open spec fn units(bits: nat) -> nat {
    2 * magnitude(bits) * pow5(places())
}

/// Whether `n` units read as the float with the bits `bits`: whether no other float is nearer. A
/// point halfway between two floats reads as the one whose last bit is clear.
pub open spec fn reads_as(n: nat, bits: nat) -> bool {
    let low = (magnitude((bits - 1) as nat) + magnitude(bits)) * pow5(places());
    let high = (magnitude(bits) + magnitude(bits + 1)) * pow5(places());
    if bits % 2 == 0 {
        low <= n <= high
    } else {
        low < n < high
    }
}

/// How far `n` units are from the float with the bits `bits`.
pub open spec fn distance(n: nat, bits: nat) -> nat {
    if n <= units(bits) {
        (units(bits) - n) as nat
    } else {
        (n - units(bits)) as nat
    }
}

/// Whether, of the multiples of `10^t` units that read as the float, `n` is the nearest to it, and
/// the larger where two are as near.
pub open spec fn nearest_at(n: nat, bits: nat, t: nat) -> bool {
    &&& n % pow10(t) == 0
    &&& reads_as(n, bits)
    &&& forall|other: nat| #[trigger]
        reads_as(other, bits) && other % pow10(t) == 0 ==> distance(n, bits) < distance(other, bits)
            || (distance(n, bits) == distance(other, bits) && other <= n)
}

/// Whether a multiple of `10^t` units reads as the float.
pub open spec fn reaches(bits: nat, t: nat) -> bool {
    exists|n: nat| #[trigger] reads_as(n, bits) && n % pow10(t) == 0
}

/// Whether `n` units are the shortest decimal that reads as the float: with as few digits as
/// possible, and then as near to it as possible.
pub open spec fn is_shortest(n: nat, bits: nat) -> bool {
    exists|t: nat| #[trigger] nearest_at(n, bits, t) && !reaches(bits, t + 1)
}

/// The shortest decimal that reads as the float with the bits `bits`, in units of `10^-150`.
pub open spec fn shortest(bits: nat) -> nat {
    choose|n: nat| is_shortest(n, bits)
}

/// `n` in `width` digits, up to the last that is not zero.
pub open spec fn fraction_text(n: nat, width: nat) -> Seq<char>
    decreases width,
{
    if width == 0 || n == 0 {
        seq![]
    } else {
        let unit = pow10((width - 1) as nat);
        seq![digit(n / unit, true)] + fraction_text(n % unit, (width - 1) as nat)
    }
}

/// The text of `n` units of `10^-150`.
pub open spec fn units_text(n: nat) -> Seq<char> {
    let whole = decimal(n / pow10(places()));
    let rest = n % pow10(places());
    if rest == 0 {
        whole
    } else {
        whole + seq!['.'] + fraction_text(rest, places())
    }
}

/// The text of the float with the bits `bits`.
pub open spec fn float_text(bits: u32) -> Seq<char> {
    match float_number(bits) {
        Real::NotANumber => "NaN"@,
        Real::Infinite => "inf"@,
        Real::NegInfinite => "-inf"@,
        Real::Finite(_) => {
            let size = (bits % 0x8000_0000) as nat;
            let text = if size == 0 {
                seq!['0']
            } else {
                units_text(shortest(size))
            };
            if bits >= 0x8000_0000 {
                seq!['-'] + text
            } else {
                text
            }
        },
    }
}

/// The magnitude of a finite float is the number that its bits stand for, without the sign.
pub proof fn law_magnitude_is_the_number(bits: u32)
    requires
        float_number(bits) is Finite,
    ensures
        float_number(bits) == Real::Finite(
            if bits >= 0x8000_0000 {
                -(magnitude((bits % 0x8000_0000) as nat) as int)
            } else {
                magnitude((bits % 0x8000_0000) as nat) as int
            },
        ),
{
    let size = bits % 0x8000_0000;
    assert((bits / 0x80_0000) % 256 == size / 0x80_0000 && bits % 0x80_0000 == size % 0x80_0000);
}

/// The shortest decimal is one number.
proof fn lemma_shortest_unique(n: nat, other: nat, bits: nat)
    requires
        is_shortest(n, bits),
        is_shortest(other, bits),
    ensures
        n == other,
{
    let t = choose|t: nat| #[trigger] nearest_at(n, bits, t) && !reaches(bits, t + 1);
    let u = choose|u: nat| #[trigger] nearest_at(other, bits, u) && !reaches(bits, u + 1);
    if t < u {
        lemma_multiple_of_less(other, t + 1, u);
        assert(reaches(bits, t + 1));
    } else if u < t {
        lemma_multiple_of_less(n, u + 1, t);
        assert(reaches(bits, u + 1));
    }
}

proof fn lemma_pow10_positive(t: nat)
    ensures
        pow10(t) > 0,
    decreases t,
{
    if t > 0 {
        lemma_pow10_positive((t - 1) as nat);
    }
}

/// A multiple of `10^u` is a multiple of each lower power.
proof fn lemma_multiple_of_less(n: nat, t: nat, u: nat)
    requires
        t <= u,
        n % pow10(u) == 0,
    ensures
        n % pow10(t) == 0,
    decreases u - t,
{
    if t < u {
        let p = pow10((u - 1) as nat);
        lemma_pow10_positive((u - 1) as nat);
        lemma_fundamental_div_mod(n as int, (10 * p) as int);
        let k: int = (n / (10 * p)) as int;
        assert(n == p * (10 * k)) by (nonlinear_arith)
            requires
                n == (10 * p) * k,
        ;
        lemma_mod_multiples_basic(10 * k, p as int);
        assert((10 * k) * p == p * (10 * k)) by (nonlinear_arith);
        lemma_multiple_of_less(n, t, (u - 1) as nat);
    }
}

// Numbers held as their decimal digits, the lowest first.

/// The digit with the weight `10^i`.
spec fn at(digits: Seq<u8>, i: int) -> nat {
    if 0 <= i < digits.len() {
        digits[i] as nat
    } else {
        0
    }
}

spec fn proper(digits: Seq<u8>) -> bool {
    forall|i: int| 0 <= i < digits.len() ==> #[trigger] digits[i] < 10
}

/// What the digits below `10^t` come to.
spec fn low(digits: Seq<u8>, t: nat) -> nat
    decreases t,
{
    if t == 0 {
        0
    } else {
        low(digits, (t - 1) as nat) + at(digits, t - 1) * pow10((t - 1) as nat)
    }
}

/// The number that the digits from `10^t` on write.
spec fn high(digits: Seq<u8>, t: nat) -> nat
    decreases digits.len() - t,
{
    if t >= digits.len() {
        0
    } else {
        at(digits, t as int) + 10 * high(digits, t + 1)
    }
}

/// The number that the digits write.
spec fn number(digits: Seq<u8>) -> nat {
    low(digits, digits.len())
}

proof fn lemma_low_bound(digits: Seq<u8>, t: nat)
    requires
        proper(digits),
    ensures
        low(digits, t) < pow10(t),
    decreases t,
{
    if t > 0 {
        let u = (t - 1) as nat;
        lemma_low_bound(digits, u);
        assert(at(digits, t - 1) * pow10(u) <= 9 * pow10(u)) by (nonlinear_arith)
            requires
                at(digits, t - 1) <= 9,
        ;
    }
}

proof fn lemma_low_same(a: Seq<u8>, b: Seq<u8>, t: nat)
    requires
        forall|i: int| 0 <= i < t ==> at(a, i) == at(b, i),
    ensures
        low(a, t) == low(b, t),
    decreases t,
{
    if t > 0 {
        lemma_low_same(a, b, (t - 1) as nat);
    }
}

proof fn lemma_low_zero(a: Seq<u8>, t: nat)
    requires
        forall|i: int| 0 <= i < t ==> at(a, i) == 0,
    ensures
        low(a, t) == 0,
    decreases t,
{
    if t > 0 {
        lemma_low_zero(a, (t - 1) as nat);
        assert(0 * pow10((t - 1) as nat) == 0);
    }
}

/// Past the last digit nothing is added.
proof fn lemma_low_whole(digits: Seq<u8>, t: nat)
    requires
        t >= digits.len(),
    ensures
        low(digits, t) == number(digits),
    decreases t,
{
    if t > digits.len() {
        lemma_low_whole(digits, (t - 1) as nat);
        assert(0 * pow10((t - 1) as nat) == 0);
    }
}

proof fn lemma_split_sum(digits: Seq<u8>, t: nat)
    requires
        t <= digits.len(),
    ensures
        number(digits) == low(digits, t) + pow10(t) * high(digits, t),
    decreases digits.len() - t,
{
    if t < digits.len() {
        lemma_split_sum(digits, t + 1);
        let d = at(digits, t as int);
        let h = high(digits, t + 1);
        let p = pow10(t);
        assert(p * (d + 10 * h) == d * p + (10 * p) * h) by (nonlinear_arith);
        assert(pow10(t + 1) == 10 * p);
        assert(low(digits, t + 1) == low(digits, t) + d * p);
    } else {
        assert(pow10(t) * 0 == 0);
    }
}

/// The digits below `10^t` are the remainder, and those from there on the quotient.
proof fn lemma_split(digits: Seq<u8>, t: nat)
    requires
        proper(digits),
    ensures
        number(digits) == low(digits, t) + pow10(t) * high(digits, t),
        number(digits) % pow10(t) == low(digits, t),
        number(digits) / pow10(t) == high(digits, t),
{
    if t <= digits.len() {
        lemma_split_sum(digits, t);
    } else {
        lemma_low_whole(digits, t);
    }
    lemma_low_bound(digits, t);
    lemma_fundamental_div_mod_converse(
        number(digits) as int,
        pow10(t) as int,
        high(digits, t) as int,
        low(digits, t) as int,
    );
}

fn digit_at(digits: &Vec<u8>, i: usize) -> (r: u8)
    requires
        proper(digits@),
    ensures
        r == at(digits@, i as int),
        r < 10,
{
    if i < digits.len() {
        digits[i]
    } else {
        0
    }
}

/// Whether `a` is at most `b`.
fn at_most(a: &Vec<u8>, b: &Vec<u8>) -> (r: bool)
    requires
        proper(a@),
        proper(b@),
    ensures
        r == (number(a@) <= number(b@)),
{
    let mut r = true;
    let mut i: usize = 0;
    while i < a.len() || i < b.len()
        invariant
            proper(a@),
            proper(b@),
            i <= a.len() || i <= b.len(),
            r == (low(a@, i as nat) <= low(b@, i as nat)),
        decreases (if a.len() > b.len() { a.len() } else { b.len() }) - i,
    {
        let left: u8 = digit_at(a, i);
        let right: u8 = digit_at(b, i);
        proof {
            let p = pow10(i as nat);
            lemma_low_bound(a@, i as nat);
            lemma_low_bound(b@, i as nat);
            if left < right {
                assert(left * p + p <= right * p) by (nonlinear_arith)
                    requires
                        left + 1 <= right,
                        p >= 0,
                ;
            } else if right < left {
                assert(right * p + p <= left * p) by (nonlinear_arith)
                    requires
                        right + 1 <= left,
                        p >= 0,
                ;
            }
            assert(low(a@, (i + 1) as nat) == low(a@, i as nat) + left as nat * p);
            assert(low(b@, (i + 1) as nat) == low(b@, i as nat) + right as nat * p);
        }
        if left < right {
            r = true;
        } else if right < left {
            r = false;
        }
        i = i + 1;
    }
    proof {
        lemma_low_whole(a@, i as nat);
        lemma_low_whole(b@, i as nat);
    }
    r
}

/// Multiplies the number by `factor`.
fn multiply(digits: &mut Vec<u8>, factor: u64)
    requires
        proper(old(digits)@),
        factor <= 0xFFFF_FFFF,
    ensures
        proper(final(digits)@),
        number(final(digits)@) == number(old(digits)@) * factor,
{
    let ghost before = digits@;
    let mut carry: u64 = 0;
    let mut i: usize = 0;
    proof {
        assert(0 * pow10(0) == 0);
        assert(0 * factor == 0);
    }
    while i < digits.len()
        invariant
            digits.len() == before.len(),
            i <= digits.len(),
            proper(before),
            proper(digits@),
            forall|j: int| i <= j < before.len() ==> digits@[j] == before[j],
            carry <= factor <= 0xFFFF_FFFF,
            low(digits@, i as nat) + carry * pow10(i as nat) == low(before, i as nat) * factor,
        decreases digits.len() - i,
    {
        let ghost earlier = digits@;
        let d: u64 = digits[i] as u64;
        assert(d * factor <= 9 * factor) by (nonlinear_arith)
            requires
                d <= 9,
        ;
        let sum: u64 = d * factor + carry;
        digits[i] = (sum % 10) as u8;
        proof {
            lemma_low_same(earlier, digits@, i as nat);
            lemma_multiply_step(
                low(earlier, i as nat),
                low(before, i as nat),
                pow10(i as nat),
                d as nat,
                carry as nat,
                factor as nat,
            );
        }
        carry = sum / 10;
        i = i + 1;
    }
    while carry > 0
        invariant
            proper(before),
            proper(digits@),
            number(digits@) + carry * pow10(digits@.len()) == number(before) * factor,
        decreases carry,
    {
        let ghost earlier = digits@;
        digits.push((carry % 10) as u8);
        proof {
            lemma_low_same(earlier, digits@, earlier.len());
            let p = pow10(earlier.len());
            let c = carry as nat;
            assert(c * p == (c % 10) * p + (c / 10) * (10 * p)) by (nonlinear_arith)
                requires
                    c == (c % 10) + 10 * (c / 10),
            ;
        }
        carry = carry / 10;
    }
    assert(0 * pow10(digits@.len()) == 0);
}

proof fn lemma_multiply_step(new: nat, old_low: nat, p: nat, d: nat, carry: nat, factor: nat)
    requires
        new + carry * p == old_low * factor,
    ensures
        new + ((d * factor + carry) % 10) * p + ((d * factor + carry) / 10) * (10 * p) == (old_low
            + d * p) * factor,
{
    let sum = d * factor + carry;
    let q = sum / 10;
    let r = sum % 10;
    assert(r * p + q * (10 * p) == sum * p) by (nonlinear_arith)
        requires
            sum == r + 10 * q,
    ;
    assert(sum * p == (d * p) * factor + carry * p) by (nonlinear_arith)
        requires
            sum == d * factor + carry,
    ;
    assert((old_low + d * p) * factor == old_low * factor + (d * p) * factor) by (nonlinear_arith);
}

/// The number with its digits below `10^t` cleared.
fn cleared(digits: &Vec<u8>, t: usize) -> (r: Vec<u8>)
    requires
        proper(digits@),
        t <= digits.len(),
    ensures
        proper(r@),
        r.len() == digits.len(),
        number(r@) == number(digits@) - low(digits@, t as nat),
{
    let mut r: Vec<u8> = Vec::new();
    let mut i: usize = 0;
    while i < digits.len()
        invariant
            proper(digits@),
            proper(r@),
            t <= digits.len(),
            i <= digits.len(),
            r.len() == i,
            forall|j: int| 0 <= j < i && j < t ==> r@[j] == 0,
            forall|j: int| t <= j < i ==> r@[j] == digits@[j],
        decreases digits.len() - i,
    {
        r.push(
            if i < t {
                0
            } else {
                digits[i]
            },
        );
        i = i + 1;
    }
    proof {
        lemma_low_zero(r@, t as nat);
        lemma_low_above(r@, digits@, t as nat, digits@.len());
    }
    r
}

/// Digits that agree from `10^t` on add the same.
proof fn lemma_low_above(a: Seq<u8>, b: Seq<u8>, t: nat, u: nat)
    requires
        t <= u,
        forall|i: int| t <= i < u ==> at(a, i) == at(b, i),
    ensures
        low(a, u) - low(a, t) == low(b, u) - low(b, t),
    decreases u,
{
    if t < u {
        lemma_low_above(a, b, t, (u - 1) as nat);
    }
}

/// Adds `10^t`.
fn raise(digits: &mut Vec<u8>, t: usize)
    requires
        proper(old(digits)@),
        t <= old(digits).len(),
    ensures
        proper(final(digits)@),
        number(final(digits)@) == number(old(digits)@) + pow10(t as nat),
{
    let ghost before = digits@;
    let mut i: usize = t;
    while i < digits.len()
        invariant_except_break
            low(digits@, i as nat) + pow10(i as nat) == low(before, i as nat) + pow10(t as nat),
            forall|j: int| i <= j < before.len() ==> digits@[j] == before[j],
        invariant
            t <= i <= digits.len(),
            digits.len() == before.len(),
            proper(before),
            proper(digits@),
        ensures
            i == digits.len() ==> low(digits@, i as nat) + pow10(i as nat) == low(before, i as nat)
                + pow10(t as nat),
            i < digits.len() ==> number(digits@) == number(before) + pow10(t as nat),
        decreases digits.len() - i,
    {
        let ghost earlier = digits@;
        let d: u8 = digits[i];
        let p = Ghost(pow10(i as nat));
        if d < 9 {
            digits[i] = d + 1;
            proof {
                lemma_low_same(earlier, digits@, i as nat);
                assert((d + 1) as nat * p@ == d as nat * p@ + p@) by (nonlinear_arith);
                lemma_low_above(digits@, before, (i + 1) as nat, before.len());
                assert(low(digits@, (i + 1) as nat) == low(earlier, i as nat) + (d + 1) as nat * p@);
                assert(low(before, (i + 1) as nat) == low(before, i as nat) + d as nat * p@);
            }
            break ;
        }
        digits[i] = 0;
        proof {
            lemma_low_same(earlier, digits@, i as nat);
            assert(low(digits@, (i + 1) as nat) == low(earlier, i as nat) + 0 * p@);
            assert(low(before, (i + 1) as nat) == low(before, i as nat) + 9 * p@);
        }
        i = i + 1;
    }
    if i == digits.len() {
        let ghost earlier = digits@;
        digits.push(1);
        proof {
            lemma_low_same(earlier, digits@, earlier.len());
            assert(1 * pow10(earlier.len()) == pow10(earlier.len()));
        }
    }
}

// The floats next to one, and what reads as it.

/// A float as a small number of quarters of the distance to the next one up, or of halves where
/// that distance is the least: the float, the points halfway to its neighbours, and the power of
/// two by which all three are multiplied.
struct Quarters {
    value: u64,
    below: u64,
    above: u64,
    twos: u32,
}

spec fn is_quarters(q: Quarters, bits: nat) -> bool {
    let unit = pow2(q.twos as nat);
    &&& 2 * magnitude(bits) == q.value * unit
    &&& magnitude((bits - 1) as nat) + magnitude(bits) == q.below * unit
    &&& magnitude(bits) + magnitude(bits + 1) == q.above * unit
    &&& 0 < q.below < q.value < q.above <= 0x800_0000
}

/// The least floats are evenly spaced.
proof fn lemma_small_magnitude(bits: nat)
    requires
        bits <= 0x100_0000,
    ensures
        magnitude(bits) == bits,
{
    lemma2_to64();
    if bits == 0x100_0000 {
        assert(bits % 0x80_0000 == 0 && bits / 0x80_0000 == 2);
        assert(0x80_0000 * pow2(1) == bits);
    } else if bits >= 0x80_0000 {
        assert(bits / 0x80_0000 == 1);
        assert((0x80_0000 + bits % 0x80_0000) * pow2(0) == bits);
    }
}

proof fn lemma_quarters(bits: nat, fraction: nat, twos: nat)
    requires
        bits >= 0x100_0000,
        fraction == bits % 0x80_0000,
        twos == bits / 0x80_0000 - 2,
    ensures
        ({
            let m = 0x80_0000 + fraction;
            let unit = pow2(twos);
            &&& 2 * magnitude(bits) == (4 * m) * unit
            &&& magnitude(bits) + magnitude(bits + 1) == (4 * m + 2) * unit
            &&& magnitude((bits - 1) as nat) + magnitude(bits) == (if fraction == 0 {
                4 * m - 1
            } else {
                4 * m - 2
            }) * unit
        }),
{
    let m = 0x80_0000 + fraction;
    let unit = pow2(twos);
    lemma_pow2_unfold(twos + 1);
    lemma_pow2_unfold(twos + 2);
    assert(magnitude(bits) == (2 * m) * unit) by {
        assert(m * (2 * unit) == (2 * m) * unit) by (nonlinear_arith);
    }
    assert(2 * ((2 * m) * unit) == (4 * m) * unit) by (nonlinear_arith);
    assert(magnitude(bits + 1) == (2 * (m + 1)) * unit) by {
        if fraction == 0x7F_FFFF {
            assert((bits + 1) % 0x80_0000 == 0);
            assert((bits + 1) / 0x80_0000 == twos + 3);
            assert(0x80_0000 * (2 * (2 * unit)) == (2 * 0x100_0000) * unit) by (nonlinear_arith);
        } else {
            assert((bits + 1) % 0x80_0000 == fraction + 1);
            assert((bits + 1) / 0x80_0000 == twos + 2);
            assert((m + 1) * (2 * unit) == (2 * (m + 1)) * unit) by (nonlinear_arith);
        }
    }
    assert((2 * m) * unit + (2 * (m + 1)) * unit == (4 * m + 2) * unit) by (nonlinear_arith);
    if fraction == 0 {
        assert((bits - 1) % 0x80_0000 == 0x7F_FFFF);
        assert((bits - 1) / 0x80_0000 == twos + 1);
        assert(magnitude((bits - 1) as nat) == 0xFF_FFFF * unit);
        assert(0xFF_FFFF * unit + (2 * m) * unit == (4 * m - 1) * unit) by (nonlinear_arith)
            requires
                m == 0x80_0000,
        ;
    } else {
        assert((bits - 1) % 0x80_0000 == fraction - 1);
        assert((bits - 1) / 0x80_0000 == twos + 2);
        assert(magnitude((bits - 1) as nat) == (m - 1) * (2 * unit));
        assert((m - 1) * (2 * unit) + (2 * m) * unit == (4 * m - 2) * unit) by (nonlinear_arith);
    }
}

/// A float lies between the points halfway to its neighbours.
proof fn lemma_order(bits: nat)
    requires
        bits >= 1,
    ensures
        0 < (magnitude((bits - 1) as nat) + magnitude(bits)) * pow5(places()) < units(bits) < (
        magnitude(bits) + magnitude(bits + 1)) * pow5(places()),
        magnitude((bits - 1) as nat) < magnitude(bits) < magnitude(bits + 1),
        reads_as(units(bits), bits),
{
    let a = magnitude((bits - 1) as nat);
    let b = magnitude(bits);
    let c = magnitude(bits + 1);
    if bits < 0x100_0000 {
        lemma_small_magnitude((bits - 1) as nat);
        lemma_small_magnitude(bits);
        lemma_small_magnitude(bits + 1);
    } else {
        let fraction = bits % 0x80_0000;
        let twos = (bits / 0x80_0000 - 2) as nat;
        lemma_quarters(bits, fraction, twos);
        lemma_pow2_pos(twos);
        let m = 0x80_0000 + fraction;
        let unit = pow2(twos);
        assert((4 * m - 2) * unit < (4 * m) * unit && (4 * m - 1) * unit < (4 * m) * unit && (4 * m)
            * unit < (4 * m + 2) * unit) by (nonlinear_arith)
            requires
                unit > 0,
        ;
    }
    let f = pow5(places());
    lemma_pow5_positive(places());
    assert(0 < (a + b) * f < (2 * b) * f < (b + c) * f) by (nonlinear_arith)
        requires
            0 <= a < b < c,
            f > 0,
    ;
}

fn quarters(bits: u32) -> (r: Quarters)
    requires
        1 <= bits <= 0x7F80_0000,
    ensures
        is_quarters(r, bits as nat),
{
    proof {
        lemma2_to64();
    }
    if bits < 0x100_0000 {
        let b: u64 = bits as u64;
        proof {
            lemma_small_magnitude((bits - 1) as nat);
            lemma_small_magnitude(bits as nat);
            lemma_small_magnitude((bits + 1) as nat);
            assert(forall|n: int| #[trigger] (n * pow2(0)) == n);
        }
        Quarters { value: 2 * b, below: 2 * b - 1, above: 2 * b + 1, twos: 0 }
    } else {
        let fraction: u64 = (bits % 0x80_0000) as u64;
        let twos: u32 = bits / 0x80_0000 - 2;
        let m: u64 = 0x80_0000 + fraction;
        proof {
            lemma_quarters(bits as nat, fraction as nat, twos as nat);
        }
        Quarters {
            value: 4 * m,
            below: if fraction == 0 {
                4 * m - 1
            } else {
                4 * m - 2
            },
            above: 4 * m + 2,
            twos,
        }
    }
}

/// `5^150 * 2^twos`.
fn unit_digits(twos: u32) -> (r: Vec<u8>)
    ensures
        proper(r@),
        number(r@) == pow2(twos as nat) * pow5(places()),
{
    let mut r: Vec<u8> = vec![1];
    let mut i: u32 = 0;
    proof {
        assert(low(r@, 1) == low(r@, 0) + 1 * pow10(0));
    }
    while i < 150
        invariant
            i <= 150,
            proper(r@),
            number(r@) == pow5(i as nat),
        decreases 150 - i,
    {
        multiply(&mut r, 5);
        i = i + 1;
    }
    let mut j: u32 = 0;
    proof {
        lemma2_to64();
        assert(pow2(0) * pow5(places()) == pow5(places()));
    }
    while j < twos
        invariant
            j <= twos,
            proper(r@),
            number(r@) == pow2(j as nat) * pow5(places()),
        decreases twos - j,
    {
        multiply(&mut r, 2);
        proof {
            lemma_pow2_unfold((j + 1) as nat);
            let p = pow2(j as nat);
            let f = pow5(places());
            assert((p * f) * 2 == (2 * p) * f) by (nonlinear_arith);
        }
        j = j + 1;
    }
    r
}

/// A float and the ends of what reads as it, in units of `10^-150`.
struct Span {
    value: Vec<u8>,
    below: Vec<u8>,
    above: Vec<u8>,
}

spec fn is_span(span: Span, bits: nat) -> bool {
    &&& proper(span.value@)
    &&& proper(span.below@)
    &&& proper(span.above@)
    &&& number(span.value@) == units(bits)
    &&& number(span.below@) == (magnitude((bits - 1) as nat) + magnitude(bits)) * pow5(places())
    &&& number(span.above@) == (magnitude(bits) + magnitude(bits + 1)) * pow5(places())
    &&& span.value.len() == span.above.len()
}

fn times(digits: &Vec<u8>, factor: u64) -> (r: Vec<u8>)
    requires
        proper(digits@),
        factor <= 0xFFFF_FFFF,
    ensures
        proper(r@),
        number(r@) == number(digits@) * factor,
{
    let mut r = cleared(digits, 0);
    multiply(&mut r, factor);
    r
}

/// Writes zeros before the number, up to `len` digits in all.
fn widen(digits: &mut Vec<u8>, len: usize)
    requires
        proper(old(digits)@),
    ensures
        proper(final(digits)@),
        number(final(digits)@) == number(old(digits)@),
        final(digits).len() >= len,
        final(digits).len() == old(digits).len() || final(digits).len() == len,
{
    while digits.len() < len
        invariant
            proper(digits@),
            number(digits@) == number(old(digits)@),
            digits.len() == old(digits).len() || digits.len() <= len,
        decreases len - digits.len(),
    {
        let ghost earlier = digits@;
        digits.push(0);
        proof {
            lemma_low_same(earlier, digits@, earlier.len());
            assert(0 * pow10(earlier.len()) == 0);
        }
    }
}

fn span_of(bits: u32) -> (r: Span)
    requires
        1 <= bits < 0x7F80_0000,
    ensures
        is_span(r, bits as nat),
{
    let q = quarters(bits);
    let unit = unit_digits(q.twos);
    let mut value = times(&unit, q.value);
    let below = times(&unit, q.below);
    let mut above = times(&unit, q.above);
    proof {
        let p = pow2(q.twos as nat);
        let f = pow5(places());
        assert((p * f) * q.value == (q.value * p) * f) by (nonlinear_arith);
        assert((p * f) * q.below == (q.below * p) * f) by (nonlinear_arith);
        assert((p * f) * q.above == (q.above * p) * f) by (nonlinear_arith);
    }
    widen(&mut value, above.len());
    widen(&mut above, value.len());
    Span { value, below, above }
}

proof fn lemma_pow5_positive(t: nat)
    ensures
        pow5(t) > 0,
    decreases t,
{
    if t > 0 {
        lemma_pow5_positive((t - 1) as nat);
    }
}

/// Whether `n` reads as the float.
fn reads(n: &Vec<u8>, span: &Span, bits: u32) -> (r: bool)
    requires
        proper(n@),
        is_span(*span, bits as nat),
    ensures
        r == reads_as(number(n@), bits as nat),
{
    if bits % 2 == 0 {
        at_most(&span.below, n) && at_most(n, &span.above)
    } else {
        !at_most(n, &span.below) && !at_most(&span.above, n)
    }
}

/// The largest multiple of `10^t` that is at most the float.
spec fn floor_of(bits: nat, t: nat) -> nat {
    (units(bits) - units(bits) % pow10(t)) as nat
}

/// A multiple of `10^t` is at most the one below the float, or at least the one above it.
proof fn lemma_multiples(n: nat, bits: nat, t: nat)
    requires
        n % pow10(t) == 0,
    ensures
        n <= floor_of(bits, t) || n >= floor_of(bits, t) + pow10(t),
        floor_of(bits, t) + units(bits) % pow10(t) == units(bits),
        floor_of(bits, t) <= units(bits) < floor_of(bits, t) + pow10(t),
        floor_of(bits, t) % pow10(t) == 0,
        (floor_of(bits, t) + pow10(t)) % pow10(t) == 0,
{
    let p = pow10(t) as int;
    let x = units(bits) as int;
    lemma_pow10_positive(t);
    lemma_fundamental_div_mod(x, p);
    lemma_mod_division_less_than_divisor(x, p);
    lemma_fundamental_div_mod(n as int, p);
    let q = x / p;
    let k = n as int / p;
    assert(floor_of(bits, t) == p * q);
    if k <= q {
        assert(p * k <= p * q) by (nonlinear_arith)
            requires
                k <= q,
                p > 0,
        ;
    } else {
        assert(p * k >= p * q + p) by (nonlinear_arith)
            requires
                k >= q + 1,
                p > 0,
        ;
    }
    lemma_mod_multiples_basic(q, p);
    lemma_mod_multiples_basic(q + 1, p);
    assert(q * p == p * q) by (nonlinear_arith);
    assert((q + 1) * p == p * q + p) by (nonlinear_arith);
}

/// A multiple of `10^t` reads as the float where one of the two next to it does.
proof fn lemma_reaches(bits: nat, t: nat)
    requires
        bits >= 1,
    ensures
        reaches(bits, t) <==> reads_as(floor_of(bits, t), bits) || reads_as(
            floor_of(bits, t) + pow10(t),
            bits,
        ),
        forall|n: nat| #[trigger]
            reads_as(n, bits) && n % pow10(t) == 0 && n <= floor_of(bits, t) ==> reads_as(
                floor_of(bits, t),
                bits,
            ),
        forall|n: nat| #[trigger]
            reads_as(n, bits) && n % pow10(t) == 0 && n > floor_of(bits, t) ==> reads_as(
                floor_of(bits, t) + pow10(t),
                bits,
            ),
{
    lemma_order(bits);
    lemma_pow10_positive(t);
    lemma_small_mod(0, pow10(t));
    lemma_multiples(0, bits, t);
    assert forall|n: nat| #[trigger] reads_as(n, bits) && n % pow10(t) == 0 implies reads_as(
        floor_of(bits, t),
        bits,
    ) || reads_as(floor_of(bits, t) + pow10(t), bits) by {
        lemma_multiples(n, bits, t);
    }
    assert forall|n: nat| #[trigger]
        reads_as(n, bits) && n % pow10(t) == 0 && n > floor_of(bits, t) implies reads_as(
        floor_of(bits, t) + pow10(t),
        bits,
    ) by {
        lemma_multiples(n, bits, t);
    }
}

/// The multiples of `10^t` next to the float, and whether each reads as it.
struct Step {
    floor: Vec<u8>,
    ceiling: Vec<u8>,
    down: bool,
    up: bool,
}

spec fn is_step(step: Step, bits: nat, t: nat) -> bool {
    &&& proper(step.floor@)
    &&& proper(step.ceiling@)
    &&& number(step.floor@) == floor_of(bits, t)
    &&& number(step.ceiling@) == floor_of(bits, t) + pow10(t)
    &&& step.down == reads_as(number(step.floor@), bits)
    &&& step.up == reads_as(number(step.ceiling@), bits)
}

fn step_at(span: &Span, bits: u32, t: usize) -> (r: Step)
    requires
        bits >= 1,
        is_span(*span, bits as nat),
        t <= span.value.len(),
    ensures
        is_step(r, bits as nat, t as nat),
        r.down || r.up <==> reaches(bits as nat, t as nat),
{
    proof {
        lemma_split(span.value@, t as nat);
        lemma_reaches(bits as nat, t as nat);
    }
    let floor = cleared(&span.value, t);
    let mut ceiling = cleared(&floor, 0);
    raise(&mut ceiling, t);
    let down = reads(&floor, span, bits);
    let up = reads(&ceiling, span, bits);
    Step { floor, ceiling, down, up }
}

/// Above the highest digit nothing reads as the float, and at the lowest the float itself does.
proof fn lemma_ends(bits: nat, t: nat)
    requires
        bits >= 1,
        (magnitude(bits) + magnitude(bits + 1)) * pow5(places()) < pow10(t),
    ensures
        !reaches(bits, t),
        reaches(bits, 0),
{
    lemma_order(bits);
    assert forall|n: nat| #[trigger] reads_as(n, bits) implies n % pow10(t) != 0 by {
        lemma_small_mod(n, pow10(t));
    }
    assert(units(bits) % pow10(0) == 0);
}

/// The larger of the two multiples is the nearer one where the next digit is at least five.
proof fn lemma_half(digits: Seq<u8>, t: nat)
    requires
        proper(digits),
        t <= digits.len(),
    ensures
        2 * low(digits, t) >= pow10(t) <==> t > 0 && digits[t - 1] >= 5,
{
    if t > 0 {
        let u = (t - 1) as nat;
        let p = pow10(u);
        let d = at(digits, u as int);
        lemma_low_bound(digits, u);
        if d >= 5 {
            assert(d * p >= 5 * p) by (nonlinear_arith)
                requires
                    d >= 5,
            ;
        } else {
            assert(d * p <= 4 * p) by (nonlinear_arith)
                requires
                    d <= 4,
            ;
        }
    }
}

/// The digits of the shortest decimal that reads as the float.
fn shortest_digits(bits: u32) -> (r: Vec<u8>)
    requires
        1 <= bits < 0x7F80_0000,
    ensures
        proper(r@),
        number(r@) == shortest(bits as nat),
{
    let span = span_of(bits);
    let mut t: usize = span.value.len();
    let mut step = step_at(&span, bits, t);
    proof {
        let len = span.above@.len();
        lemma_low_bound(span.above@, len);
        assert(pow10(len + 1) == 10 * pow10(len));
        lemma_ends(bits as nat, len + 1);
    }
    while t > 0 && !(step.down || step.up)
        invariant
            bits >= 1,
            is_span(span, bits as nat),
            t <= span.value.len(),
            is_step(step, bits as nat, t as nat),
            step.down || step.up <==> reaches(bits as nat, t as nat),
            !reaches(bits as nat, (t + 1) as nat),
        decreases t,
    {
        t = t - 1;
        step = step_at(&span, bits, t);
    }
    let up = step.up && (!step.down || (t > 0 && span.value[t - 1] >= 5));
    let r = if up {
        step.ceiling
    } else {
        step.floor
    };
    proof {
        lemma_half(span.value@, t as nat);
        lemma_split(span.value@, t as nat);
        lemma_nearest(number(r@), bits as nat, t as nat);
        assert(is_shortest(number(r@), bits as nat));
        lemma_shortest_unique(number(r@), shortest(bits as nat), bits as nat);
    }
    r
}

/// The nearer of the two multiples next to the float is the nearest of all.
proof fn lemma_nearest(n: nat, bits: nat, t: nat)
    requires
        bits >= 1,
        reads_as(n, bits),
        n == floor_of(bits, t) || n == floor_of(bits, t) + pow10(t),
        n == floor_of(bits, t) ==> !reads_as(floor_of(bits, t) + pow10(t), bits) || 2 * (units(bits)
            % pow10(t)) < pow10(t),
        n != floor_of(bits, t) ==> !reads_as(floor_of(bits, t), bits) || 2 * (units(bits) % pow10(
            t,
        )) >= pow10(t),
    ensures
        nearest_at(n, bits, t),
{
    lemma_reaches(bits, t);
    lemma_pow10_positive(t);
    lemma_small_mod(0, pow10(t));
    lemma_multiples(0, bits, t);
    assert forall|other: nat| #[trigger] reads_as(other, bits) && other % pow10(t) == 0 implies {
        distance(n, bits) < distance(other, bits) || (distance(n, bits) == distance(other, bits)
            && other <= n)
    } by {
        lemma_multiples(other, bits, t);
    }
}

proof fn lemma_pow10_above(n: nat)
    ensures
        n < pow10(n),
    decreases n,
{
    if n > 0 {
        lemma_pow10_above((n - 1) as nat);
    }
}

proof fn lemma_shortest_below(bits: nat, t: nat)
    requires
        bits >= 1,
        !reaches(bits, t + 1),
    ensures
        is_shortest(shortest(bits), bits),
    decreases t,
{
    lemma_pow10_above((magnitude(bits) + magnitude(bits + 1)) * pow5(places()));
    lemma_ends(bits, (magnitude(bits) + magnitude(bits + 1)) * pow5(places()));
    if reaches(bits, t) {
        lemma_reaches(bits, t);
        let floor = floor_of(bits, t);
        let ceiling = floor + pow10(t);
        let n = if reads_as(ceiling, bits) && (!reads_as(floor, bits) || 2 * (units(bits) % pow10(
            t,
        )) >= pow10(t)) {
            ceiling
        } else {
            floor
        };
        lemma_pow10_positive(t);
        lemma_nearest(n, bits, t);
        assert(is_shortest(n, bits));
    } else {
        lemma_shortest_below(bits, (t - 1) as nat);
    }
}

/// Every float has one shortest decimal.
pub proof fn law_shortest_decimal_is_one(bits: nat, n: nat)
    requires
        bits >= 1,
    ensures
        is_shortest(n, bits) <==> n == shortest(bits),
{
    lemma_shortest(bits);
    if is_shortest(n, bits) {
        lemma_shortest_unique(n, shortest(bits), bits);
    }
}

/// Every float has a shortest decimal.
proof fn lemma_shortest(bits: nat)
    requires
        bits >= 1,
    ensures
        is_shortest(shortest(bits), bits),
{
    let n = (magnitude(bits) + magnitude(bits + 1)) * pow5(places());
    lemma_pow10_above(n);
    assert(pow10(n + 1) == 10 * pow10(n));
    lemma_ends(bits, n + 1);
    lemma_shortest_below(bits, n);
}

// The text of the digits.

proof fn lemma_high_step(digits: Seq<u8>, t: nat)
    ensures
        high(digits, t) == at(digits, t as int) + 10 * high(digits, t + 1),
{
}

proof fn lemma_high_positive(digits: Seq<u8>, t: nat, i: nat)
    requires
        t <= i,
        at(digits, i as int) > 0,
    ensures
        high(digits, t) > 0,
    decreases i - t,
{
    if t < i {
        lemma_high_positive(digits, t + 1, i);
    }
}

/// Adds the digits from `10^from` on, up to the highest, which stands below `10^to`.
fn push_whole(text: &mut String, digits: &Vec<u8>, from: usize, to: usize)
    requires
        proper(digits@),
        from < to,
        high(digits@, to as nat) == 0,
        to == from + 1 || at(digits@, to - 1) > 0,
    ensures
        final(text)@ == old(text)@ + decimal(high(digits@, from as nat)),
    decreases to - from,
{
    let ghost before = text@;
    let d: u8 = digit_at(digits, from);
    proof {
        lemma_high_step(digits@, from as nat);
    }
    if to - from > 1 {
        proof {
            lemma_high_positive(digits@, (from + 1) as nat, (to - 1) as nat);
        }
        push_whole(text, digits, from + 1, to);
    }
    text.push(to_digit(d, true));
    proof {
        let n = high(digits@, from as nat);
        if to - from > 1 {
            assert(n / 10 == high(digits@, (from + 1) as nat) && n % 10 == d);
            assert(text@ =~= before + decimal(n / 10).push(digit(n % 10, true)));
        } else {
            assert(text@ =~= before + seq![digit(n, true)]);
        }
    }
}

/// Adds the digits below `10^width`, from the highest down to the last that is not zero.
fn push_fraction(text: &mut String, digits: &Vec<u8>, width: usize)
    requires
        proper(digits@),
    ensures
        final(text)@ == old(text)@ + fraction_text(low(digits@, width as nat), width as nat),
{
    let ghost goal = text@ + fraction_text(low(digits@, width as nat), width as nat);
    let mut last: usize = 0;
    while last < width && digit_at(digits, last) == 0
        invariant
            last <= width,
            proper(digits@),
            forall|i: int| 0 <= i < last ==> at(digits@, i) == 0,
        decreases width - last,
    {
        last = last + 1;
    }
    proof {
        lemma_low_zero(digits@, last as nat);
    }
    let mut w: usize = width;
    while w > last
        invariant
            last <= w <= width,
            proper(digits@),
            last < width ==> at(digits@, last as int) > 0,
            text@ + fraction_text(low(digits@, w as nat), w as nat) =~= goal,
        decreases w,
    {
        let ghost before = text@;
        let d: u8 = digit_at(digits, w - 1);
        text.push(to_digit(d, true));
        proof {
            let u = (w - 1) as nat;
            lemma_low_bound(digits@, u);
            lemma_low_positive(digits@, w as nat, last as nat);
            assert(d as nat * pow10(u) == pow10(u) * d as nat) by (nonlinear_arith);
            lemma_fundamental_div_mod_converse(
                low(digits@, w as nat) as int,
                pow10(u) as int,
                d as int,
                low(digits@, u) as int,
            );
            assert(before + (seq![digit(d as nat, true)] + fraction_text(low(digits@, u), u))
                =~= text@ + fraction_text(low(digits@, u), u));
        }
        w = w - 1;
    }
    assert(text@ + seq![] =~= text@);
}

proof fn lemma_low_positive(digits: Seq<u8>, t: nat, i: nat)
    requires
        i < t,
        at(digits, i as int) > 0,
    ensures
        low(digits, t) > 0,
    decreases t,
{
    if i + 1 < t {
        lemma_low_positive(digits, (t - 1) as nat, i);
    } else {
        lemma_pow10_positive(i);
        assert(at(digits, i as int) * pow10(i) > 0) by (nonlinear_arith)
            requires
                at(digits, i as int) > 0,
                pow10(i) > 0,
        ;
    }
}

/// Adds the text of a number of units.
fn push_units(text: &mut String, digits: &Vec<u8>)
    requires
        proper(digits@),
    ensures
        final(text)@ == old(text)@ + units_text(number(digits@)),
{
    let ghost before = text@;
    let mut to: usize = digits.len();
    if to < 151 {
        to = 151;
    }
    while to > 151 && digit_at(digits, to - 1) == 0
        invariant
            to >= 151,
            proper(digits@),
            high(digits@, to as nat) == 0,
        decreases to,
    {
        proof {
            lemma_high_step(digits@, (to - 1) as nat);
        }
        to = to - 1;
    }
    push_whole(text, digits, 150, to);
    let mut fractional = false;
    let mut i: usize = 0;
    while i < 150
        invariant
            i <= 150,
            proper(digits@),
            fractional == (low(digits@, i as nat) > 0),
        decreases 150 - i,
    {
        if digit_at(digits, i) != 0 {
            fractional = true;
            proof {
                lemma_low_positive(digits@, (i + 1) as nat, i as nat);
            }
        } else {
            assert(0 * pow10(i as nat) == 0);
        }
        i = i + 1;
    }
    proof {
        lemma_split(digits@, places());
    }
    if fractional {
        text.push('.');
        push_fraction(text, digits, 150);
    }
    assert(text@ =~= before + units_text(number(digits@)));
}

/// The text of the float with the bits `bits`.
pub fn text_of_float(bits: u32) -> (text: String)
    ensures
        text@ == float_text(bits),
{
    let size: u32 = bits % 0x8000_0000;
    let negative = bits >= 0x8000_0000;
    assert((bits / 0x80_0000) % 256 == size / 0x80_0000 && bits % 0x80_0000 == size % 0x80_0000)
        by (nonlinear_arith)
        requires
            size == bits % 0x8000_0000,
    ;
    if size > 0x7F80_0000 {
        return "NaN".to_owned();
    }
    if size == 0x7F80_0000 {
        return if negative {
            "-inf".to_owned()
        } else {
            "inf".to_owned()
        };
    }
    let mut text = String::new();
    if negative {
        text.push('-');
    }
    let ghost sign = text@;
    if size == 0 {
        text.push('0');
        assert(text@ =~= sign + seq!['0']);
    } else {
        let digits = shortest_digits(size);
        push_units(&mut text, &digits);
    }
    assert(text@ =~= float_text(bits));
    text
}

} // verus!
