//! What is written of a float reads back as that float.

use super::reading::{
    decimal_value, float_of_text, infinity, is_nearest, lemma_nearest_unique, lemma_pow10_adds,
    lemma_tiny, magnitude_of_text, or_empty, parted, positive,
};
use super::{
    float_text, fraction_text, lemma_pow10_positive, lemma_shortest, magnitude, nearest_at, places,
    pow10, pow5, reaches, reads_as, shortest, units_text,
};
use crate::number::{float_number, Real};
use crate::text::{decimal, digit, digits_value, fold, fold_char, lemma_decimal};
use vstd::arithmetic::div_mod::*;
use vstd::prelude::*;

verus! {

spec fn all_digits(text: Seq<char>) -> bool {
    forall|i: int| 0 <= i < text.len() ==> '0' <= #[trigger] text[i] <= '9'
}

/// A text without the character is not parted by it.
proof fn lemma_not_parted(text: Seq<char>, c: char)
    requires
        forall|i: int| 0 <= i < text.len() ==> fold_char(#[trigger] text[i]) != c,
    ensures
        parted(text, c) == (text, None::<Seq<char>>),
    decreases text.len(),
{
    if text.len() > 0 {
        let rest = text.drop_first();
        assert forall|i: int| 0 <= i < rest.len() implies fold_char(#[trigger] rest[i]) != c by {
            assert(rest[i] == text[i + 1]);
        }
        lemma_not_parted(rest, c);
        assert(seq![text[0]] + rest =~= text);
    } else {
        assert(text =~= seq![]);
    }
}

/// A text is parted by the first such character.
proof fn lemma_parted(before: Seq<char>, c: char, behind: Seq<char>)
    requires
        forall|i: int| 0 <= i < before.len() ==> fold_char(#[trigger] before[i]) != c,
        fold_char(c) == c,
    ensures
        parted(before + seq![c] + behind, c) == (before, Some(behind)),
    decreases before.len(),
{
    let text = before + seq![c] + behind;
    if before.len() > 0 {
        let rest = before.drop_first();
        assert forall|i: int| 0 <= i < rest.len() implies fold_char(#[trigger] rest[i]) != c by {
            assert(rest[i] == before[i + 1]);
        }
        lemma_parted(rest, c, behind);
        assert(text.drop_first() =~= rest + seq![c] + behind);
        assert(text[0] == before[0]);
        assert(seq![before[0]] + rest =~= before);
    } else {
        assert(text.drop_first() =~= behind);
        assert(text[0] == c);
        assert(before =~= seq![]);
    }
}

/// Digits behind digits move them up.
proof fn lemma_digits_joined(left: Seq<char>, right: Seq<char>)
    requires
        digits_value(left, 10) is Some,
        digits_value(right, 10) is Some,
    ensures
        digits_value(left + right, 10) == Some(
            (digits_value(left, 10)->0 * pow10(right.len()) + digits_value(right, 10)->0) as nat,
        ),
    decreases right.len(),
{
    let all = left + right;
    let a = digits_value(left, 10)->0;
    if right.len() == 0 {
        assert(all =~= left);
        assert(pow10(0) == 1);
        assert(a * 1 == a);
    } else {
        let front = right.drop_last();
        assert(all.drop_last() =~= left + front);
        assert(all.last() == right.last());
        lemma_digits_joined(left, front);
        let p = pow10(front.len());
        let b = digits_value(front, 10)->0;
        assert((a * p + b) * 10 == a * (10 * p) + b * 10) by (nonlinear_arith);
    }
}

/// The digits behind the point, as many as are written, are what they were written of.
proof fn lemma_fraction(n: nat, width: nat)
    requires
        n < pow10(width),
    ensures
        ({
            let text = fraction_text(n, width);
            &&& all_digits(text)
            &&& text.len() <= width
            &&& digits_value(text, 10) is Some
            &&& digits_value(text, 10)->0 * pow10((width - text.len()) as nat) == n
        }),
    decreases width,
{
    let text = fraction_text(n, width);
    if width == 0 || n == 0 {
        assert(text =~= seq![]);
        assert(0 * pow10(width) == 0);
    } else {
        let unit = pow10((width - 1) as nat);
        lemma_pow10_positive((width - 1) as nat);
        lemma_fundamental_div_mod(n as int, unit as int);
        lemma_mod_division_less_than_divisor(n as int, unit as int);
        let d = n / unit;
        let r = n % unit;
        assert(d < 10) by (nonlinear_arith)
            requires
                n == unit * d + r,
                n < 10 * unit,
                r >= 0,
        ;
        lemma_fraction(r, (width - 1) as nat);
        let first = seq![digit(d, true)];
        let rest = fraction_text(r, (width - 1) as nat);
        assert(text == first + rest);
        assert(first.drop_last() =~= seq![]);
        assert(digits_value(first.drop_last(), 10) == Some(0nat));
        assert(digits_value(first, 10) == Some(d));
        lemma_digits_joined(first, rest);
        assert forall|i: int| 0 <= i < text.len() implies '0' <= #[trigger] text[i] <= '9' by {
            if i > 0 {
                assert(text[i] == rest[i - 1]);
            }
        }
        let v = digits_value(rest, 10)->0;
        let p = pow10(rest.len());
        let q = pow10((width - text.len()) as nat);
        lemma_pow10_adds(rest.len(), (width - text.len()) as nat);
        assert((d * p + v) * q == d * (p * q) + v * q) by (nonlinear_arith);
        assert(d * unit == unit * d) by (nonlinear_arith);
    }
}

/// What is written of `n` units is read as digits and a power of ten that come to `n` units.
proof fn lemma_units_text(n: nat)
    ensures
        ({
            let text = units_text(n);
            &&& text.len() > 0
            &&& '0' <= text[0] <= '9'
            &&& decimal_value(text) matches Some((digits, exponent)) && -places() <= exponent <= 0
                && digits * pow10((exponent + places()) as nat) == n
        }),
{
    let p = pow10(places());
    lemma_pow10_positive(places());
    lemma_fundamental_div_mod(n as int, p as int);
    lemma_mod_division_less_than_divisor(n as int, p as int);
    let text = units_text(n);
    let high = n / p;
    let rest = n % p;
    let whole = decimal(high);
    lemma_decimal(high);
    lemma_fraction(rest, places());
    let fraction = fraction_text(rest, places());
    assert forall|i: int| 0 <= i < text.len() implies fold_char(#[trigger] text[i]) != 'e' by {
        if i < whole.len() {
            assert(text[i] == whole[i]);
        } else if i > whole.len() {
            assert(text[i] == fraction[i - whole.len() - 1]);
        }
    }
    lemma_not_parted(text, 'e');
    assert(text[0] == whole[0]);
    assert(high * p == p * high) by (nonlinear_arith);
    if rest == 0 {
        lemma_not_parted(text, '.');
        assert(whole + Seq::<char>::empty() =~= whole);
        assert(or_empty(None) =~= seq![]);
    } else {
        lemma_parted(whole, '.', fraction);
        lemma_digits_joined(whole, fraction);
        let v = digits_value(fraction, 10)->0;
        let a = pow10(fraction.len());
        let b = pow10((places() - fraction.len()) as nat);
        lemma_pow10_adds(fraction.len(), (places() - fraction.len()) as nat);
        assert((high * a + v) * b == high * (a * b) + v * b) by (nonlinear_arith);
    }
}

/// The shortest decimal of a float is nearest to that float.
proof fn lemma_shortest_text(bits: nat)
    requires
        1 <= bits < infinity(),
    ensures
        magnitude_of_text(units_text(shortest(bits))) == Some(bits),
        units_text(shortest(bits)).len() > 0,
        '0' <= units_text(shortest(bits))[0] <= '9',
{
    lemma_shortest(bits);
    let n = shortest(bits);
    let text = units_text(n);
    assert(reads_as(n, bits)) by {
        let t = choose|t: nat| #[trigger] nearest_at(n, bits, t) && !reaches(bits, t + 1);
    }
    lemma_units_text(n);
    let (digits, exponent) = decimal_value(text)->0;
    assert(pow10(0) == 1);
    let a = (magnitude((bits - 1) as nat) + magnitude(bits)) * pow5(places());
    let b = (magnitude(bits) + magnitude(bits + 1)) * pow5(places());
    assert(a * 1 == a);
    assert(b * 1 == b);
    assert(positive(exponent + places()) == (exponent + places()) as nat);
    assert(is_nearest(digits, exponent, bits));
    lemma_nearest_unique(digits, exponent, bits);
    reveal_strlit("inf");
    reveal_strlit("infinity");
    reveal_strlit("nan");
    assert(fold(text)[0] == text[0]);
}

/// The text of a float is read as that float, and that of no number as no number.
pub proof fn law_float_text_round_trip(bits: u32)
    ensures
        match float_number(bits) {
            Real::NotANumber => float_of_text(float_text(bits)) == Some(0x7FC0_0000u32),
            _ => float_of_text(float_text(bits)) == Some(bits),
        },
{
    let text = float_text(bits);
    let size = (bits % 0x8000_0000) as nat;
    reveal_strlit("inf");
    reveal_strlit("-inf");
    reveal_strlit("infinity");
    reveal_strlit("nan");
    reveal_strlit("NaN");
    match float_number(bits) {
        Real::NotANumber => {
            assert(fold("NaN"@) =~= "nan"@);
        },
        Real::Infinite => {
            assert(fold("inf"@) =~= "inf"@);
        },
        Real::NegInfinite => {
            assert("-inf"@.drop_first() =~= "inf"@);
            assert(fold("inf"@) =~= "inf"@);
        },
        Real::Finite(_) => {
            let body = if size == 0 {
                seq!['0']
            } else {
                units_text(shortest(size))
            };
            if size == 0 {
                lemma_zero_text();
            } else {
                lemma_shortest_text(size);
            }
            if bits >= 0x8000_0000 {
                assert(text == seq!['-'] + body);
                assert(text.drop_first() =~= body);
            }
        },
    }
}

proof fn lemma_zero_text()
    ensures
        magnitude_of_text(seq!['0']) == Some(0nat),
{
    let text = seq!['0'];
    lemma_not_parted(text, 'e');
    lemma_not_parted(text, '.');
    assert(text + or_empty(None) =~= text);
    assert(text.drop_last() =~= seq![]);
    assert(digits_value(text.drop_last(), 10) == Some(0nat));
    assert(digits_value(text, 10) == Some(0nat));
    assert(decimal_value(text) == Some((0nat, 0int)));
    reveal_strlit("inf");
    reveal_strlit("infinity");
    reveal_strlit("nan");
    assert(fold(text).len() == 1);
    assert(pow10(0) == 1);
    lemma_tiny(0, 0, 0);
}

} // verus!
