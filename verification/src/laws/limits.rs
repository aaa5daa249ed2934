//! Laws of constraints: which values a constraint allows.

use crate::model::{
    resolved, same_value, value_number, ConstraintView, ParameterView, ValueView,
};
use crate::number::{float_number, less, off_step, tolerance, Real};
use crate::value::{allowed, encoded_value, parsed_text, ValueErrorView};
use vstd::arithmetic::power2::*;
use vstd::prelude::*;

verus! {

/// Whether a value is a finite number from `minimum` to `maximum`, as numbers of one type compare.
pub open spec fn between(minimum: ValueView, value: ValueView, maximum: ValueView) -> bool {
    match (minimum, value, maximum) {
        (
            ValueView::Int16 { value: low },
            ValueView::Int16 { value },
            ValueView::Int16 { value: high },
        ) => low <= value <= high,
        (
            ValueView::Int32 { value: low },
            ValueView::Int32 { value },
            ValueView::Int32 { value: high },
        ) => low <= value <= high,
        (
            ValueView::Float32 { value: low },
            ValueView::Float32 { value },
            ValueView::Float32 { value: high },
        ) => match (float_number(low.bits), float_number(value.bits), float_number(high.bits)) {
            (Real::Finite(low), Real::Finite(x), Real::Finite(high)) => low <= x <= high,
            _ => false,
        },
        _ => false,
    }
}

/// Whether the ends of a range and a value are numbers of one type, and the ends finite.
pub open spec fn comparable(minimum: ValueView, value: ValueView, maximum: ValueView) -> bool {
    match (minimum, value, maximum) {
        (ValueView::Int16 { .. }, ValueView::Int16 { .. }, ValueView::Int16 { .. }) => true,
        (ValueView::Int32 { .. }, ValueView::Int32 { .. }, ValueView::Int32 { .. }) => true,
        (
            ValueView::Float32 { value: low },
            ValueView::Float32 { .. },
            ValueView::Float32 { value: high },
        ) => float_number(low.bits) is Finite && float_number(high.bits) is Finite,
        _ => false,
    }
}

proof fn lemma_scaled_order(left: int, right: int)
    ensures
        left * pow2(149) < right * pow2(149) <==> left < right,
{
    lemma_pow2_pos(149);
    let a = pow2(149) as int;
    assert(left * a < right * a <==> left < right) by (nonlinear_arith)
        requires
            a > 0,
    ;
}

/// A range allows no value but finite numbers from its minimum to its maximum; without a step it
/// allows all of those.
pub proof fn law_range_keeps_to_its_ends(
    minimum: ValueView,
    maximum: ValueView,
    display_minimum: Option<ValueView>,
    display_maximum: Option<ValueView>,
    step: Option<ValueView>,
    value: ValueView,
)
    requires
        comparable(minimum, value, maximum),
    ensures
        ({
            let range = ConstraintView::Range {
                minimum,
                maximum,
                display_minimum,
                display_maximum,
                step,
            };
            &&& allowed(range, value) is Ok ==> between(minimum, value, maximum)
            &&& step is None ==> (allowed(range, value) is Ok <==> between(minimum, value, maximum))
            &&& !between(minimum, value, maximum) ==> allowed(range, value) == Err::<(), _>(
                ValueErrorView::ConstraintViolation,
            )
        }),
{
    match (minimum, value, maximum) {
        (
            ValueView::Int16 { value: low },
            ValueView::Int16 { value },
            ValueView::Int16 { value: high },
        ) => {
            lemma_scaled_order(value as int, low as int);
            lemma_scaled_order(high as int, value as int);
        },
        (
            ValueView::Int32 { value: low },
            ValueView::Int32 { value },
            ValueView::Int32 { value: high },
        ) => {
            lemma_scaled_order(value as int, low as int);
            lemma_scaled_order(high as int, value as int);
        },
        _ => {},
    }
}

/// Whatever its ends are, a range allows no text, no infinity and nothing that is no number.
pub proof fn law_range_allows_finite_numbers_alone(constraint: ConstraintView, value: ValueView)
    requires
        constraint is Range,
        allowed(constraint, value) is Ok,
    ensures
        value_number(value) matches Some(Real::Finite(_)),
{
}

/// No value outside the ends of its range is ever sent to a parameter, nor read out of a text.
pub proof fn law_value_outside_the_range_is_not_written(
    parameter: ParameterView,
    value: ValueView,
    text: Seq<char>,
)
    requires
        resolved(parameter.constraint) matches ConstraintView::Range { minimum, maximum, .. }
            && comparable(minimum, value, maximum) && !between(minimum, value, maximum),
    ensures
        encoded_value(parameter, value) is Err,
        parsed_text(parameter, text) != Ok::<_, ValueErrorView>(value),
{
    if let ConstraintView::Range { minimum, maximum, display_minimum, display_maximum, step } =
        resolved(parameter.constraint) {
        law_range_keeps_to_its_ends(
            minimum,
            maximum,
            display_minimum,
            display_maximum,
            step,
            value,
        );
    }
}

/// A choice allows the values of its choices, and no other.
pub proof fn law_choice_allows_its_values(constraint: ConstraintView, value: ValueView)
    requires
        constraint is Choice,
    ensures
        allowed(constraint, value) is Ok <==> exists|i: int|
            0 <= i < constraint->Choice_choices.len() && same_value(
                (#[trigger] constraint->Choice_choices[i]).value,
                value,
            ),
{
}

/// A string choice allows its texts, and any other text exactly where arbitrary values are
/// allowed.
pub proof fn law_string_choice_allows_its_texts(
    choices: Seq<Seq<char>>,
    arbitrary_values_allowed: bool,
    value: ValueView,
)
    ensures
        allowed(ConstraintView::StringChoice { choices, arbitrary_values_allowed }, value) is Ok
            <==> value is String && (arbitrary_values_allowed || choices.contains(
            value->String_value,
        )),
{
}

/// Where nothing is restricted every value is allowed, and where the restriction is not known none
/// is. What an external object holds restricts as if it stood in the descriptor.
pub proof fn law_other_constraints(
    constraint: ConstraintView,
    value: ValueView,
    object_id: u16,
    type_id: u8,
)
    ensures
        allowed(ConstraintView::Unconstrained, value) is Ok,
        constraint is AlarmTable ==> allowed(constraint, value) is Ok,
        allowed(ConstraintView::Unsupported { type_id }, value) == Err::<(), _>(
            ValueErrorView::UnsupportedConstraint,
        ),
        allowed(
            ConstraintView::External { object_id, resolved: Box::new(constraint) },
            value,
        ) == allowed(constraint, value),
{
}

/// Two values are equal where they are of one type and the same. Floats are equal as numbers: the
/// two zeros are, and what is no number equals nothing.
pub proof fn law_equal_values(left: ValueView, right: ValueView)
    ensures
        same_value(left, right) == same_value(right, left),
        left == right && !(left is Float32) ==> same_value(left, right),
        same_value(left, right) && !(left is Float32) ==> left == right,
        same_value(left, right) && left is Float32 ==> right is Float32 && float_number(
            left->Float32_value.bits,
        ) == float_number(right->Float32_value.bits) && !(float_number(
            left->Float32_value.bits,
        ) is NotANumber),
        left is Float32 && right is Float32 && float_number(left->Float32_value.bits)
            == float_number(right->Float32_value.bits) && !(float_number(
            left->Float32_value.bits,
        ) is NotANumber) ==> same_value(left, right),
{
}

/// Numbers are ordered: the infinities below and above all finite ones, which compare as they are,
/// and what is no number is neither less nor greater than anything.
pub proof fn law_order_of_numbers(left: Real, right: Real)
    ensures
        match (left, right) {
            (Real::Finite(x), Real::Finite(y)) => less(left, right) <==> x < y,
            (Real::NotANumber, _) => !less(left, right),
            (_, Real::NotANumber) => !less(left, right),
            (Real::NegInfinite, Real::NegInfinite) => !less(left, right),
            (Real::NegInfinite, _) => less(left, right),
            (_, Real::NegInfinite) => !less(left, right),
            (Real::Infinite, _) => !less(left, right),
            (_, Real::Infinite) => less(left, right),
        },
{
}

/// A number is taken to lie on a step where it is within a millionth of one: the tolerance, counted
/// in units of `2^-72`, is as near to a millionth as it can be.
pub proof fn law_tolerance_is_a_millionth()
    ensures
        pow2(72) - 500_000 <= tolerance() * 1_000_000 <= pow2(72) + 500_000,
{
    lemma2_to64();
    lemma2_to64_rest();
    lemma_pow2_adds(64, 8);
}

/// The minimum itself lies on a step, whatever the step is, and nothing lies off a step of zero.
pub proof fn law_minimum_is_on_a_step(minimum: int, value: int, step: int)
    ensures
        !off_step(Real::Finite(minimum), Real::Finite(minimum), Real::Finite(step)),
        !off_step(Real::Finite(value), Real::Finite(minimum), Real::Finite(0)),
{
}

} // verus!
