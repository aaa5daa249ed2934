//! Reading a 32-bit float from a decimal text.

use super::{
    at, at_most, high, lemma_high_step, lemma_low_bound, lemma_low_zero, lemma_order,
    lemma_pow10_positive, lemma_pow5_positive, lemma_split, low, magnitude, number, places, pow10,
    pow5, proper, quarters, times, unit_digits,
};
use crate::text::{
    chars_of, digit_value, digits_value, fold, fold_char, lemma_digits_prefix, signed_value,
    to_digit_value, to_fold_char,
};
use vstd::arithmetic::power2::*;
use vstd::prelude::*;

verus! {

/// The bits of the infinity.
pub open spec fn infinity() -> nat {
    0x7F80_0000
}

/// `n` where it is positive, and zero elsewhere.
pub open spec fn positive(n: int) -> nat {
    if n > 0 {
        n as nat
    } else {
        0
    }
}

/// Whether `digits * 10^exponent` is nearer to the float with the bits `bits`, or to a larger one,
/// than to any smaller one. A number halfway between two floats belongs to the one whose last bit
/// is clear.
pub open spec fn is_from(digits: nat, exponent: int, bits: nat) -> bool {
    let left = digits * pow10(positive(exponent + places()));
    let middle = (magnitude((bits - 1) as nat) + magnitude(bits)) * pow5(places());
    let right = middle * pow10(positive(-exponent - places()));
    bits == 0 || right < left || (right == left && bits % 2 == 0)
}

/// Whether the float with the bits `bits` is the nearest to `digits * 10^exponent`.
pub open spec fn is_nearest(digits: nat, exponent: int, bits: nat) -> bool {
    &&& bits <= infinity()
    &&& is_from(digits, exponent, bits)
    &&& bits < infinity() ==> !is_from(digits, exponent, bits + 1)
}

/// The bits of the float that is nearest to `digits * 10^exponent`.
pub open spec fn nearest_float(digits: nat, exponent: int) -> nat {
    choose|bits: nat| is_nearest(digits, exponent, bits)
}

/// A text before and behind the first `c` in it, in either case.
pub open spec fn parted(text: Seq<char>, c: char) -> (Seq<char>, Option<Seq<char>>)
    decreases text.len(),
{
    if text.len() == 0 {
        (seq![], None)
    } else if fold_char(text[0]) == c {
        (seq![], Some(text.drop_first()))
    } else {
        let (before, behind) = parted(text.drop_first(), c);
        (seq![text[0]] + before, behind)
    }
}

/// What a text that may be missing holds.
pub open spec fn or_empty(text: Option<Seq<char>>) -> Seq<char> {
    match text {
        Some(text) => text,
        None => seq![],
    }
}

/// The number that a text without a sign writes, as digits and a power of ten: digits with an
/// optional point among them, and an optional exponent.
pub open spec fn decimal_value(text: Seq<char>) -> Option<(nat, int)> {
    let (mantissa, power) = parted(text, 'e');
    let (whole, fraction) = parted(mantissa, '.');
    let digits = whole + or_empty(fraction);
    let exponent = match power {
        Some(power) => signed_value(power),
        None => Some(0),
    };
    match (digits_value(digits, 10), exponent) {
        (Some(value), Some(exponent)) => if digits.len() > 0 {
            Some((value, exponent - or_empty(fraction).len()))
        } else {
            None
        },
        _ => None,
    }
}

/// The bits of the float that a text without a sign writes.
pub open spec fn magnitude_of_text(text: Seq<char>) -> Option<nat> {
    if fold(text) == "inf"@ || fold(text) == "infinity"@ {
        Some(infinity())
    } else if fold(text) == "nan"@ {
        Some(0x7FC0_0000)
    } else {
        match decimal_value(text) {
            Some((digits, exponent)) => Some(nearest_float(digits, exponent)),
            None => None,
        }
    }
}

/// The bits of the float that a text writes, after an optional sign.
pub open spec fn float_of_text(text: Seq<char>) -> Option<u32> {
    let signed = text.len() > 0 && (text[0] == '-' || text[0] == '+');
    let body = if signed {
        text.drop_first()
    } else {
        text
    };
    match magnitude_of_text(body) {
        Some(bits) => Some(
            if signed && text[0] == '-' {
                (0x8000_0000 + bits) as u32
            } else {
                bits as u32
            },
        ),
        None => None,
    }
}

/// A number that belongs to a float or a larger one belongs to a smaller one or a larger one.
proof fn lemma_is_from(digits: nat, exponent: int, low_bits: nat, high_bits: nat)
    requires
        low_bits <= high_bits,
        is_from(digits, exponent, high_bits),
    ensures
        is_from(digits, exponent, low_bits),
    decreases high_bits,
{
    if 0 < low_bits < high_bits {
        let bits = (high_bits - 1) as nat;
        lemma_order(bits);
        lemma_pow5_positive(places());
        let p = positive(-exponent - places());
        lemma_pow10_positive(p);
        let a = magnitude((bits - 1) as nat) + magnitude(bits);
        let b = magnitude(bits) + magnitude(bits + 1);
        assert((a * pow5(places())) * pow10(p) < (b * pow5(places())) * pow10(p))
            by (nonlinear_arith)
            requires
                a < b,
                pow5(places()) > 0,
                pow10(p) > 0,
        ;
        lemma_is_from(digits, exponent, low_bits, bits);
    }
}

pub(super) proof fn lemma_nearest_unique(digits: nat, exponent: int, bits: nat)
    requires
        is_nearest(digits, exponent, bits),
    ensures
        nearest_float(digits, exponent) == bits,
{
    let other = nearest_float(digits, exponent);
    assert(is_nearest(digits, exponent, other));
    if other < bits {
        lemma_is_from(digits, exponent, other + 1, bits);
    } else if bits < other {
        lemma_is_from(digits, exponent, bits + 1, other);
    }
}

proof fn lemma_nearest_below(digits: nat, exponent: int, bits: nat)
    requires
        bits <= infinity(),
        bits < infinity() ==> !is_from(digits, exponent, bits + 1),
    ensures
        is_nearest(digits, exponent, nearest_float(digits, exponent)),
    decreases bits,
{
    if is_from(digits, exponent, bits) {
        assert(is_nearest(digits, exponent, bits));
    } else {
        lemma_nearest_below(digits, exponent, (bits - 1) as nat);
    }
}

/// Every decimal number has one nearest float.
pub proof fn law_nearest_float_is_one(digits: nat, exponent: int, bits: nat)
    ensures
        is_nearest(digits, exponent, bits) <==> bits == nearest_float(digits, exponent),
{
    lemma_nearest_below(digits, exponent, infinity());
    if is_nearest(digits, exponent, bits) {
        lemma_nearest_unique(digits, exponent, bits);
    }
}

pub(super) proof fn lemma_pow10_adds(a: nat, b: nat)
    ensures
        pow10(a + b) == pow10(a) * pow10(b),
    decreases a,
{
    if a == 0 {
        assert(1 * pow10(b) == pow10(b));
    } else {
        lemma_pow10_adds((a - 1) as nat, b);
        let p = pow10((a - 1) as nat);
        assert(10 * (p * pow10(b)) == (10 * p) * pow10(b)) by (nonlinear_arith);
    }
}

proof fn lemma_pow10_order(a: nat, b: nat)
    requires
        a <= b,
    ensures
        pow10(a) <= pow10(b),
    decreases b,
{
    if a < b {
        lemma_pow10_order(a, (b - 1) as nat);
    }
}

/// A power of two times the power of five is at most a power of ten.
proof fn lemma_binary_bound(twos: nat, fives: nat)
    requires
        twos >= fives,
    ensures
        pow2(twos) * pow5(fives) <= pow10(twos),
    decreases twos,
{
    lemma2_to64();
    if fives > 0 {
        lemma_binary_bound((twos - 1) as nat, (fives - 1) as nat);
        lemma_pow2_unfold(twos);
        let a = pow2((twos - 1) as nat);
        let b = pow5((fives - 1) as nat);
        assert((2 * a) * (5 * b) == 10 * (a * b)) by (nonlinear_arith);
    } else if twos > 0 {
        lemma_binary_bound((twos - 1) as nat, 0);
        lemma_pow2_unfold(twos);
        assert(pow2(twos) * 1 == pow2(twos));
        assert(pow2((twos - 1) as nat) * 1 == pow2((twos - 1) as nat));
    } else {
        assert(pow2(0) * pow5(0) == 1);
    }
}

/// A number with its first digit far above the floats is nearest to the infinity.
proof fn lemma_huge(digits: nat, exponent: int, n: nat)
    requires
        digits >= pow10(n),
        n + exponent >= 129,
    ensures
        nearest_float(digits, exponent) == infinity(),
{
    let s = exponent + places();
    let above = positive(s);
    let below = positive(-s);
    let middle = (magnitude((infinity() - 1) as nat) + magnitude(infinity())) * pow5(places());
    assert(middle <= pow10(278)) by {
        let a = pow2(277);
        assert(magnitude(infinity()) == a) by {
            assert(infinity() % 0x80_0000 == 0 && infinity() / 0x80_0000 == 255);
            lemma2_to64();
            lemma_pow2_adds(23, 254);
        }
        assert(magnitude((infinity() - 1) as nat) <= a) by {
            lemma_pow2_adds(24, 253);
            lemma2_to64();
            assert((infinity() - 1) % 0x80_0000 == 0x7F_FFFF && (infinity() - 1) / 0x80_0000 == 254);
            assert(0xFF_FFFF * pow2(253) <= 0x100_0000 * pow2(253)) by (nonlinear_arith);
        }
        lemma_pow2_unfold(278);
        lemma_binary_bound(278, 150);
        assert(middle <= (2 * a) * pow5(places())) by (nonlinear_arith)
            requires
                middle == (magnitude((infinity() - 1) as nat) + magnitude(infinity())) * pow5(
                    places(),
                ),
                magnitude((infinity() - 1) as nat) <= a,
                magnitude(infinity()) <= a,
        ;
    }
    lemma_pow10_adds(n, above);
    lemma_pow10_adds(278, below);
    lemma_pow10_order(279 + below, n + above);
    assert(pow10(279 + below) == 10 * pow10(278 + below));
    lemma_pow10_positive(278 + below);
    assert(digits * pow10(above) >= pow10(n) * pow10(above)) by (nonlinear_arith)
        requires
            digits >= pow10(n),
    ;
    assert(middle * pow10(below) <= pow10(278) * pow10(below)) by (nonlinear_arith)
        requires
            middle <= pow10(278),
    ;
    lemma_nearest_unique(digits, exponent, infinity());
}

/// A number far below the floats is nearest to zero.
pub(super) proof fn lemma_tiny(digits: nat, exponent: int, n: nat)
    requires
        digits < pow10(n),
        n + exponent <= -150 || digits == 0,
    ensures
        nearest_float(digits, exponent) == 0,
{
    let s = exponent + places();
    let below = positive(-s);
    let middle = (magnitude(0) + magnitude(1)) * pow5(places());
    lemma_pow5_positive(places());
    lemma_pow10_positive(below);
    assert(middle >= 1) by (nonlinear_arith)
        requires
            middle == (magnitude(0) + magnitude(1)) * pow5(places()),
            magnitude(0) + magnitude(1) >= 1,
            pow5(places()) > 0,
    ;
    assert(middle * pow10(below) >= pow10(below)) by (nonlinear_arith)
        requires
            middle >= 1,
    ;
    if digits == 0 {
        assert(0 * pow10(positive(s)) == 0);
    } else {
        lemma_pow10_order(n, below);
        assert(pow10(0) == 1);
        assert(digits * 1 == digits);
    }
    assert(!is_from(digits, exponent, 1));
    lemma_nearest_unique(digits, exponent, 0);
}

proof fn lemma_high_moved(moved: Seq<u8>, digits: Seq<u8>, count: nat, t: nat)
    requires
        moved.len() == count + digits.len(),
        forall|i: int| 0 <= i < digits.len() ==> #[trigger] moved[count + i] == digits[i],
        t <= digits.len(),
    ensures
        high(moved, count + t) == high(digits, t),
    decreases digits.len() - t,
{
    if t < digits.len() {
        lemma_high_moved(moved, digits, count, t + 1);
        assert(moved[count + t as int] == digits[t as int]);
    }
}

/// The number times `10^count`.
fn moved(digits: &Vec<u8>, count: usize) -> (r: Vec<u8>)
    requires
        proper(digits@),
    ensures
        proper(r@),
        number(r@) == number(digits@) * pow10(count as nat),
{
    let mut r: Vec<u8> = Vec::new();
    let mut i: usize = 0;
    while i < count
        invariant
            i <= count,
            r.len() == i,
            forall|j: int| 0 <= j < i ==> r@[j] == 0,
        decreases count - i,
    {
        r.push(0);
        i = i + 1;
    }
    let mut k: usize = 0;
    while k < digits.len()
        invariant
            proper(digits@),
            k <= digits.len(),
            r.len() == count + k,
            forall|j: int| 0 <= j < count ==> r@[j] == 0,
            forall|j: int| 0 <= j < k ==> #[trigger] r@[count + j] == digits@[j],
            proper(r@),
        decreases digits.len() - k,
    {
        r.push(digits[k]);
        k = k + 1;
    }
    proof {
        lemma_low_zero(r@, count as nat);
        lemma_high_moved(r@, digits@, count as nat, 0);
        lemma_split(r@, count as nat);
        lemma_split(digits@, 0);
        let h = high(digits@, 0);
        assert(1 * h == h);
        assert(pow10(count as nat) * h == h * pow10(count as nat)) by (nonlinear_arith);
    }
    r
}

/// The point halfway between the float with the bits `bits` and the one below it.
fn middle(bits: u32) -> (r: Vec<u8>)
    requires
        1 <= bits <= 0x7F80_0000,
    ensures
        proper(r@),
        number(r@) == (magnitude((bits - 1) as nat) + magnitude(bits as nat)) * pow5(places()),
{
    let q = quarters(bits);
    let unit = unit_digits(q.twos);
    let r = times(&unit, q.below);
    proof {
        let p = pow2(q.twos as nat);
        let f = pow5(places());
        assert((p * f) * q.below == (q.below * p) * f) by (nonlinear_arith);
    }
    r
}

/// How many digits the number has, without zeros before it.
fn length(digits: &Vec<u8>) -> (r: usize)
    requires
        proper(digits@),
    ensures
        r == 0 <==> number(digits@) == 0,
        r > 0 ==> number(digits@) >= pow10((r - 1) as nat),
        number(digits@) < pow10(r as nat),
        r <= digits.len(),
{
    let mut r: usize = digits.len();
    while r > 0 && digits[r - 1] == 0
        invariant
            proper(digits@),
            r <= digits.len(),
            number(digits@) == low(digits@, r as nat),
        decreases r,
    {
        assert(0 * pow10((r - 1) as nat) == 0);
        r = r - 1;
    }
    proof {
        lemma_low_bound(digits@, r as nat);
        if r > 0 {
            let p = pow10((r - 1) as nat);
            lemma_pow10_positive((r - 1) as nat);
            assert(at(digits@, r - 1) * p >= p) by (nonlinear_arith)
                requires
                    at(digits@, r - 1) >= 1,
            ;
        }
    }
    r
}

/// The bits of the float that is nearest to a number of digits times `10^exponent`.
fn nearest(digits: &Vec<u8>, exponent: i128) -> (r: u32)
    requires
        proper(digits@),
        -0x100_0000_0000_0000_0000_0000_0000 <= exponent <= 0x100_0000_0000_0000_0000_0000_0000,
    ensures
        r == nearest_float(number(digits@), exponent as int),
        r <= infinity(),
{
    let n: usize = length(digits);
    if n == 0 || n as i128 + exponent <= -150 {
        proof {
            lemma_tiny(number(digits@), exponent as int, n as nat);
        }
        return 0;
    }
    if n as i128 + exponent >= 130 {
        proof {
            lemma_huge(number(digits@), exponent as int, (n - 1) as nat);
        }
        return 0x7F80_0000;
    }
    let shift: i128 = exponent + 150;
    let above: usize = if shift > 0 {
        shift as usize
    } else {
        0
    };
    let below: usize = if shift < 0 {
        (-shift) as usize
    } else {
        0
    };
    let left = moved(digits, above);
    let mut least: u32 = 0;
    let mut most: u32 = 0x7F80_0001;
    while most - least > 1
        invariant
            proper(digits@),
            proper(left@),
            above == positive(exponent + places()),
            below == positive(-exponent - places()),
            number(left@) == number(digits@) * pow10(above as nat),
            least < most <= 0x7F80_0001,
            is_from(number(digits@), exponent as int, least as nat),
            most <= 0x7F80_0000 ==> !is_from(number(digits@), exponent as int, most as nat),
        decreases most - least,
    {
        let bits: u32 = least + (most - least) / 2;
        let right = moved(&middle(bits), below);
        let from = if bits % 2 == 0 {
            at_most(&right, &left)
        } else {
            !at_most(&left, &right)
        };
        if from {
            least = bits;
        } else {
            most = bits;
        }
    }
    proof {
        lemma_nearest_unique(number(digits@), exponent as int, least as nat);
    }
    least
}

/// The characters `chars[from..to]`.
fn part(chars: &Vec<char>, from: usize, to: usize) -> (r: Vec<char>)
    requires
        from <= to <= chars.len(),
    ensures
        r@ == chars@.subrange(from as int, to as int),
{
    let mut r: Vec<char> = Vec::new();
    let mut i: usize = from;
    while i < to
        invariant
            from <= i <= to <= chars.len(),
            r@ == chars@.subrange(from as int, i as int),
        decreases to - i,
    {
        r.push(chars[i]);
        assert(r@ =~= chars@.subrange(from as int, i + 1));
        i = i + 1;
    }
    r
}

/// The characters before and behind the first `c`.
fn split_at(chars: &Vec<char>, c: char) -> (r: (Vec<char>, Option<Vec<char>>))
    ensures
        r.0@ == parted(chars@, c).0,
        match r.1 {
            Some(behind) => parted(chars@, c).1 == Some(behind@),
            None => parted(chars@, c).1 is None,
        },
{
    let mut i: usize = 0;
    proof {
        assert(chars@.skip(0) =~= chars@);
        assert(chars@.take(0) + parted(chars@, c).0 =~= parted(chars@, c).0);
    }
    while i < chars.len() && to_fold_char(chars[i]) != c
        invariant
            i <= chars.len(),
            parted(chars@, c).0 == chars@.take(i as int) + parted(chars@.skip(i as int), c).0,
            parted(chars@, c).1 == parted(chars@.skip(i as int), c).1,
        decreases chars.len() - i,
    {
        proof {
            let rest = chars@.skip(i as int);
            assert(rest.drop_first() =~= chars@.skip(i + 1));
            assert(chars@.take(i as int) + (seq![rest[0]] + parted(rest.drop_first(), c).0)
                =~= chars@.take(i + 1) + parted(rest.drop_first(), c).0);
        }
        i = i + 1;
    }
    let before = part(chars, 0, i);
    assert(before@ =~= chars@.take(i as int) + Seq::<char>::empty());
    if i < chars.len() {
        let behind = part(chars, i + 1, chars.len());
        assert(behind@ =~= chars@.skip(i as int).drop_first());
        (before, Some(behind))
    } else {
        (before, None)
    }
}

proof fn lemma_digits_high(chars: Seq<char>, digits: Seq<u8>, n: nat)
    requires
        n <= chars.len(),
        digits.len() == chars.len(),
        forall|k: int|
            0 <= k < chars.len() ==> #[trigger] digit_value(chars[k], 10) == Some(
                digits[chars.len() - 1 - k] as nat,
            ),
    ensures
        digits_value(chars.take(n as int), 10) == Some(high(digits, (chars.len() - n) as nat)),
    decreases n,
{
    let taken = chars.take(n as int);
    if n > 0 {
        lemma_digits_high(chars, digits, (n - 1) as nat);
        assert(taken.drop_last() =~= chars.take(n - 1));
        assert(taken.last() == chars[n - 1]);
        lemma_high_step(digits, (chars.len() - n) as nat);
    }
}

/// The digits of a row of digits.
fn digits_of(chars: &Vec<char>) -> (r: Option<Vec<u8>>)
    ensures
        match r {
            Some(digits) => proper(digits@) && digits_value(chars@, 10) == Some(number(digits@)),
            None => digits_value(chars@, 10) is None,
        },
{
    let mut r: Vec<u8> = Vec::new();
    let mut i: usize = chars.len();
    while i > 0
        invariant
            i <= chars.len(),
            r.len() == chars.len() - i,
            proper(r@),
            forall|k: int|
                i <= k < chars.len() ==> #[trigger] digit_value(chars@[k], 10) == Some(
                    r@[chars.len() - 1 - k] as nat,
                ),
        decreases i,
    {
        match to_digit_value(chars[i - 1], 10) {
            Some(d) => {
                r.push(d as u8);
            },
            None => {
                proof {
                    assert(chars@.take(i as int).last() == chars@[i - 1]);
                    lemma_digits_prefix(chars@, i as int, 10);
                }
                return None;
            },
        }
        i = i - 1;
    }
    proof {
        lemma_digits_high(chars@, r@, chars@.len());
        assert(chars@.take(chars@.len() as int) =~= chars@);
        lemma_split(r@, 0);
        assert(1 * high(r@, 0) == high(r@, 0));
    }
    Some(r)
}

/// `n` where it is at most `limit`, and `limit` elsewhere.
spec fn capped(n: nat, limit: nat) -> nat {
    if n <= limit {
        n
    } else {
        limit
    }
}

/// The number that `chars[from..]` writes, or `limit` where it is larger.
fn capped_digits(chars: &Vec<char>, from: usize, limit: u128) -> (r: Option<u128>)
    requires
        from <= chars.len(),
        limit <= 0x1_0000_0000_0000_0000_0000,
    ensures
        match digits_value(chars@.skip(from as int), 10) {
            Some(v) => r == Some(capped(v, limit as nat) as u128),
            None => r is None,
        },
{
    let ghost body = chars@.skip(from as int);
    let mut value: u128 = 0;
    let mut i: usize = from;
    assert(body.take(0) =~= Seq::<char>::empty());
    while i < chars.len()
        invariant
            from <= i <= chars.len(),
            body == chars@.skip(from as int),
            value <= limit <= 0x1_0000_0000_0000_0000_0000,
            digits_value(body.take(i - from), 10) is Some,
            value == capped(digits_value(body.take(i - from), 10)->0, limit as nat),
        decreases chars.len() - i,
    {
        let ghost longer = body.take(i + 1 - from);
        assert(longer.drop_last() =~= body.take(i - from));
        assert(longer.last() == chars@[i as int]);
        match to_digit_value(chars[i], 10) {
            None => {
                proof {
                    lemma_digits_prefix(body, i + 1 - from, 10);
                }
                return None;
            },
            Some(d) => {
                let next: u128 = value * 10 + d as u128;
                value = if next > limit {
                    limit
                } else {
                    next
                };
            },
        }
        i = i + 1;
    }
    assert(body.take(i - from) =~= body);
    Some(value)
}

/// The power of ten from which on exponents are not told apart.
const FAR: u128 = 0x1_0000_0000_0000_0000_0000;

/// An exponent, or the farthest one where it is farther.
spec fn near(exponent: int) -> int {
    if exponent > FAR {
        FAR as int
    } else if exponent < -FAR {
        -FAR
    } else {
        exponent
    }
}

/// The exponent that a text writes, as far as exponents are told apart.
fn exponent_of(chars: &Vec<char>) -> (r: Option<i128>)
    ensures
        match signed_value(chars@) {
            Some(v) => r == Some(near(v) as i128),
            None => r is None,
        },
{
    let negative = chars.len() > 0 && chars[0] == '-';
    let from: usize = if chars.len() > 0 && (chars[0] == '-' || chars[0] == '+') {
        1
    } else {
        0
    };
    if from == chars.len() {
        return None;
    }
    assert(from == 0 ==> chars@.skip(0) =~= chars@);
    assert(from == 1 ==> chars@.skip(1) =~= chars@.drop_first());
    match capped_digits(chars, from, FAR) {
        Some(value) => Some(
            if negative {
                -(value as i128)
            } else {
                value as i128
            },
        ),
        None => None,
    }
}

/// Exponents that are not told apart give the same float.
proof fn lemma_near(digits: nat, n: nat, exponent: int, moved: int)
    requires
        digits < pow10(n),
        0 <= n <= 0xFFFF_FFFF_FFFF_FFFF,
        0 <= moved <= 0xFFFF_FFFF_FFFF_FFFF,
    ensures
        nearest_float(digits, near(exponent) - moved) == nearest_float(digits, exponent - moved),
{
    if exponent > FAR {
        if digits == 0 {
            lemma_tiny(digits, exponent - moved, n);
            lemma_tiny(digits, near(exponent) - moved, n);
        } else {
            assert(pow10(0) == 1);
            lemma_huge(digits, exponent - moved, 0);
            lemma_huge(digits, near(exponent) - moved, 0);
        }
    } else if exponent < -FAR {
        lemma_tiny(digits, exponent - moved, n);
        lemma_tiny(digits, near(exponent) - moved, n);
    }
}

/// The float that a text without a sign writes in digits.
fn read_decimal(chars: &Vec<char>) -> (r: Option<u32>)
    ensures
        match decimal_value(chars@) {
            Some((digits, exponent)) => r is Some && r->0 == nearest_float(digits, exponent) && r->0
                <= infinity(),
            None => r is None,
        },
{
    let (mantissa, power) = split_at(chars, 'e');
    let (mut all, fraction) = split_at(&mantissa, '.');
    let exponent: i128 = match power {
        Some(power) => match exponent_of(&power) {
            Some(exponent) => exponent,
            None => return None,
        },
        None => 0,
    };
    let ghost whole = all@;
    let mut count: usize = 0;
    if let Some(mut fraction) = fraction {
        count = fraction.len();
        all.append(&mut fraction);
    }
    let ghost rest = or_empty(parted(parted(chars@, 'e').0, '.').1);
    assert(all@ =~= whole + rest);
    if all.len() == 0 {
        return None;
    }
    match digits_of(&all) {
        Some(digits) => {
            let n: usize = digits.len();
            proof {
                let e = match parted(chars@, 'e').1 {
                    Some(power) => signed_value(power)->0,
                    None => 0,
                };
                lemma_low_bound(digits@, digits@.len());
                lemma_near(number(digits@), n as nat, e, count as int);
            }
            Some(nearest(&digits, exponent - count as i128))
        },
        None => None,
    }
}

/// Whether the characters are those of `word`, in either case.
fn spells(chars: &Vec<char>, word: &str) -> (r: bool)
    ensures
        r == (fold(chars@) == fold(word@)),
{
    let other = chars_of(word);
    if chars.len() != other.len() {
        assert(fold(chars@).len() != fold(word@).len());
        return false;
    }
    let mut i: usize = 0;
    while i < chars.len()
        invariant
            i <= chars.len() == other.len(),
            other@ == word@,
            forall|j: int| 0 <= j < i ==> fold_char(chars@[j]) == fold_char(other@[j]),
        decreases chars.len() - i,
    {
        if to_fold_char(chars[i]) != to_fold_char(other[i]) {
            assert(fold(chars@)[i as int] != fold(word@)[i as int]);
            return false;
        }
        i = i + 1;
    }
    assert(fold(chars@) =~= fold(word@));
    true
}

/// The bits of the float that a text writes, after an optional sign.
pub fn read_float(text: &str) -> (r: Option<u32>)
    ensures
        r == float_of_text(text@),
{
    let all = chars_of(text);
    let signed = all.len() > 0 && (all[0] == '-' || all[0] == '+');
    let negative = signed && all[0] == '-';
    let body = part(
        &all,
        if signed {
            1
        } else {
            0
        },
        all.len(),
    );
    proof {
        reveal_strlit("inf");
        reveal_strlit("infinity");
        reveal_strlit("nan");
        assert(signed ==> body@ =~= text@.drop_first());
        assert(!signed ==> body@ =~= text@);
        assert(fold("inf"@) =~= "inf"@);
        assert(fold("infinity"@) =~= "infinity"@);
        assert(fold("nan"@) =~= "nan"@);
    }
    let bits: u32 = if spells(&body, "inf") || spells(&body, "infinity") {
        0x7F80_0000
    } else if spells(&body, "nan") {
        0x7FC0_0000
    } else {
        match read_decimal(&body) {
            Some(bits) => bits,
            None => return None,
        }
    };
    Some(
        if negative {
            0x8000_0000 + bits
        } else {
            bits
        },
    )
}

} // verus!
