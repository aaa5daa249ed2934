//! Laws of constraints as devices describe them: the number of a form decides what its data is.

use crate::bytes::{be16, be16_bytes, be32, signed16, signed32, unsigned16, unsigned32};
use crate::model::{AlarmView, ChoiceView, ConstraintView, ParameterType, ValueView};
use crate::number::{float_number, Real};
use crate::protocol::constraint::{
    alarm_item, bit_width_of, choice_item, number_at, parsed_alarms, parsed_choices,
    parsed_constraint, parsed_external, parsed_string_choices, range_valid, width_of,
};
use crate::protocol::constraint_layout::{
    alarm_list, choice_fits, choice_list, choices_bytes, law_alarms_round_trip,
    law_choices_round_trip, law_range_round_trip, law_string_choices_round_trip, number_bytes,
    number_fits, range_bytes,
};
use crate::protocol::error::ProtocolErrorView;
use crate::protocol::items::{
    countable, counted_list, counted_strings, items, law_counted_string_is_its_bytes,
    law_counted_strings_are_their_bytes,
};
use crate::protocol::layout::{lemma_be16_bytes, lemma_be32_bytes};
use vstd::arithmetic::power2::*;
use vstd::prelude::*;

verus! {

/// The numbers of a type, or of its elements, have two bytes or four, and only they have numbers;
/// only integers have bits.
pub proof fn law_size_of_numbers(parameter_type: ParameterType)
    ensures
        match parameter_type {
            ParameterType::Int16 => width_of(parameter_type) == Some(2nat) && bit_width_of(
                parameter_type,
            ) == Some(16u8),
            ParameterType::Int16Array { .. } => width_of(parameter_type) == Some(2nat)
                && bit_width_of(parameter_type) == Some(16u8),
            ParameterType::Int32 => width_of(parameter_type) == Some(4nat) && bit_width_of(
                parameter_type,
            ) == Some(32u8),
            ParameterType::Int32Array { .. } => width_of(parameter_type) == Some(4nat)
                && bit_width_of(parameter_type) == Some(32u8),
            ParameterType::Float32 => width_of(parameter_type) == Some(4nat) && bit_width_of(
                parameter_type,
            ) is None,
            ParameterType::Float32Array { .. } => width_of(parameter_type) == Some(4nat)
                && bit_width_of(parameter_type) is None,
            _ => width_of(parameter_type) is None && bit_width_of(parameter_type) is None,
        },
{
}

/// A range is used where its ends are in order and its step, where it has one, is positive; floats
/// must be finite.
pub proof fn law_usable_ranges(
    minimum: ValueView,
    maximum: ValueView,
    step: Option<ValueView>,
)
    ensures
        match (minimum, maximum, step) {
            (ValueView::Int16 { value: low }, ValueView::Int16 { value: high }, None) => range_valid(
                minimum,
                maximum,
                step,
            ) <==> low <= high,
            (
                ValueView::Int16 { value: low },
                ValueView::Int16 { value: high },
                Some(ValueView::Int16 { value: size }),
            ) => range_valid(minimum, maximum, step) <==> low <= high && size > 0,
            (ValueView::Int32 { value: low }, ValueView::Int32 { value: high }, None) => range_valid(
                minimum,
                maximum,
                step,
            ) <==> low <= high,
            (
                ValueView::Int32 { value: low },
                ValueView::Int32 { value: high },
                Some(ValueView::Int32 { value: size }),
            ) => range_valid(minimum, maximum, step) <==> low <= high && size > 0,
            (ValueView::Float32 { value: low }, ValueView::Float32 { value: high }, None) =>
                range_valid(minimum, maximum, step) <==> match (
                float_number(low.bits),
                float_number(high.bits),
            ) {
                (Real::Finite(low), Real::Finite(high)) => low <= high,
                _ => false,
            },
            (
                ValueView::Float32 { value: low },
                ValueView::Float32 { value: high },
                Some(ValueView::Float32 { value: size }),
            ) => range_valid(minimum, maximum, step) <==> match (
                float_number(low.bits),
                float_number(high.bits),
                float_number(size.bits),
            ) {
                (Real::Finite(low), Real::Finite(high), Real::Finite(size)) => low <= high && size
                    > 0,
                _ => false,
            },
            _ => true,
        },
{
    match (minimum, maximum, step) {
        (ValueView::Int16 { value: low }, ValueView::Int16 { value: high }, step) => {
            lemma_ordered(low as int, high as int);
            if let Some(ValueView::Int16 { value: size }) = step {
                lemma_ordered(size as int, 0);
            }
        },
        (ValueView::Int32 { value: low }, ValueView::Int32 { value: high }, step) => {
            lemma_ordered(low as int, high as int);
            if let Some(ValueView::Int32 { value: size }) = step {
                lemma_ordered(size as int, 0);
            }
        },
        _ => {
            assert(0 * pow2(149) == 0);
        },
    }
}

proof fn lemma_ordered(low: int, high: int)
    ensures
        high * pow2(149) < low * pow2(149) <==> high < low,
        0 * pow2(149) == 0,
{
    lemma_pow2_pos(149);
    let a = pow2(149) as int;
    assert(high * a < low * a <==> high < low) by (nonlinear_arith)
        requires
            a > 0,
    ;
}

/// A range that a device describes is read with its ends, its display scale and its step; the form
/// 1 has no step, and the form 5 has one.
pub proof fn law_described_range(
    minimum: ValueView,
    maximum: ValueView,
    scale: Option<(ValueView, ValueView)>,
    step: Option<ValueView>,
    parameter_type: ParameterType,
)
    requires
        number_fits(minimum, parameter_type),
        number_fits(maximum, parameter_type),
        scale matches Some((low, high)) ==> number_fits(low, parameter_type) && number_fits(
            high,
            parameter_type,
        ),
        step matches Some(step) ==> number_fits(step, parameter_type),
        range_valid(minimum, maximum, step),
    ensures
        parsed_constraint(
            if step is Some {
                5
            } else {
                1
            },
            range_bytes(minimum, maximum, scale, step),
            parameter_type,
        ) matches Ok(
            ConstraintView::Range {
                minimum: low,
                maximum: high,
                display_minimum,
                display_maximum,
                step: size,
            },
        ) && low == minimum && high == maximum && size == step && (match scale {
            Some((left, right)) => display_minimum == Some(left) && display_maximum == Some(right),
            None => display_minimum is None && display_maximum is None,
        }),
{
    law_range_round_trip(minimum, maximum, scale, step, parameter_type);
}

/// A range that cannot be used is refused, and so is a range with bytes missing or left over.
pub proof fn law_unusable_range_is_refused(
    type_id: u8,
    data: Seq<u8>,
    parameter_type: ParameterType,
)
    requires
        type_id == 1 || type_id == 5,
    ensures
        parsed_constraint(type_id, data, parameter_type) matches Ok(constraint) ==> (
        constraint matches ConstraintView::Range {
            minimum,
            maximum,
            display_minimum,
            display_maximum,
            step,
        } && range_valid(minimum, maximum, step) && (step is Some <==> type_id == 5) && (
        display_minimum is Some <==> display_maximum is Some) && (width_of(
            parameter_type,
        ) matches Some(width) && data.len() == width * (2int + (if step is Some {
            1int
        } else {
            0int
        }) + (if display_minimum is Some {
            2int
        } else {
            0int
        })))),
{
}

/// Choices that a device describes are read as they are: the form 2 counts them in one byte, and the
/// form 3 in two.
pub proof fn law_described_choices(
    choices: Seq<ChoiceView>,
    parameter_type: ParameterType,
    extended: bool,
)
    requires
        width_of(parameter_type) is Some,
        choices.len() <= if extended {
            0xFFFFnat
        } else {
            0xFFnat
        },
        forall|i: int| 0 <= i < choices.len() ==> choice_fits(#[trigger] choices[i], parameter_type),
    ensures
        parsed_constraint(
            if extended {
                3
            } else {
                2
            },
            choices_bytes(choices, extended),
            parameter_type,
        ) == Ok::<_, ProtocolErrorView>(ConstraintView::Choice { choices }),
{
    law_choices_round_trip(choices, parameter_type, extended);
}

/// String choices that a device describes, in the form 4, are read as they are, and allow other
/// texts.
pub proof fn law_described_string_choices(choices: Seq<Seq<char>>, parameter_type: ParameterType)
    requires
        choices.len() <= 0xFFFF,
        forall|i: int| 0 <= i < choices.len() ==> countable(#[trigger] choices[i]),
    ensures
        parsed_constraint(
            4,
            be16_bytes(choices.len() as u16) + counted_list(choices),
            parameter_type,
        ) == Ok::<_, ProtocolErrorView>(
            ConstraintView::StringChoice { choices, arbitrary_values_allowed: true },
        ),
{
    law_string_choices_round_trip(choices);
}

/// Alarms that a device describes, in the form 10, are read as they are.
pub proof fn law_described_alarms(alarms: Seq<AlarmView>, parameter_type: ParameterType)
    requires
        bit_width_of(parameter_type) is Some,
        alarms.len() <= 0xFF,
        forall|i: int|
            0 <= i < alarms.len() ==> countable((#[trigger] alarms[i]).name) && alarms[i].bit
                < bit_width_of(parameter_type)->0,
    ensures
        parsed_constraint(10, seq![alarms.len() as u8] + alarm_list(alarms), parameter_type) == Ok::<
            _,
            ProtocolErrorView,
        >(ConstraintView::AlarmTable { alarms }),
{
    law_alarms_round_trip(alarms, parameter_type);
}

/// The form 0 restricts nothing and has no data; the form 11 names an object; a form that is not
/// known is kept by its number.
pub proof fn law_other_described_constraints(
    type_id: u8,
    data: Seq<u8>,
    parameter_type: ParameterType,
)
    ensures
        parsed_constraint(0, data, parameter_type) is Ok <==> data.len() == 0,
        data.len() == 0 ==> parsed_constraint(0, data, parameter_type) == Ok::<
            _,
            ProtocolErrorView,
        >(ConstraintView::Unconstrained),
        parsed_constraint(11, data, parameter_type) is Ok <==> data.len() == 2,
        data.len() == 2 ==> (parsed_constraint(11, data, parameter_type) matches Ok(
            ConstraintView::External { object_id, .. },
        ) && object_id == data[0] * 0x100 + data[1]),
        6 <= type_id <= 9 || type_id > 11 ==> parsed_constraint(type_id, data, parameter_type)
            == Ok::<_, ProtocolErrorView>(ConstraintView::Unsupported { type_id }),
{
}

/// An external object holds a constraint where its first two bytes are 0 and 1: its third byte is
/// the form and its data follow the fourth. It must not name another object. Any other object
/// restricts nothing.
pub proof fn law_constraint_in_an_object(bytes: Seq<u8>, parameter_type: ParameterType)
    requires
        bytes.len() >= 4,
    ensures
        !(bytes[0] == 0 && bytes[1] == 1) ==> parsed_external(bytes, parameter_type) == Ok::<
            _,
            ProtocolErrorView,
        >(ConstraintView::Unconstrained),
        bytes[0] == 0 && bytes[1] == 1 ==> match parsed_constraint(
            bytes[2],
            bytes.subrange(4, bytes.len() as int),
            parameter_type,
        ) {
            Ok(ConstraintView::External { .. }) => parsed_external(bytes, parameter_type) is Err,
            inline => parsed_external(bytes, parameter_type) == inline,
        },
{
    assert(bytes.skip(4) =~= bytes.subrange(4, bytes.len() as int));
}

proof fn lemma_number_bytes(parameter_type: ParameterType, data: Seq<u8>, at: int)
    requires
        width_of(parameter_type) is Some,
        0 <= at,
        at + width_of(parameter_type)->0 <= data.len(),
    ensures
        number_bytes(number_at(parameter_type, data, at)) == data.subrange(
            at,
            at + width_of(parameter_type)->0,
        ),
        number_fits(number_at(parameter_type, data, at), parameter_type),
{
    let bytes = data.subrange(at, at + width_of(parameter_type)->0);
    if width_of(parameter_type) == Some(2nat) {
        lemma_be16_bytes(data, at);
        assert(bytes =~= seq![data[at], data[at + 1]]);
        let n = be16(data, at);
        assert(unsigned16(signed16(n)) == n);
    } else {
        lemma_be32_bytes(data, at);
        assert(bytes =~= seq![data[at], data[at + 1], data[at + 2], data[at + 3]]);
        let n = be32(data, at);
        assert(unsigned32(signed32(n)) == n);
    }
}

proof fn lemma_choice_list(data: Seq<u8>, parameter_type: ParameterType, at: int, count: nat)
    requires
        width_of(parameter_type) is Some,
        0 <= at <= data.len(),
        items(choice_item(data, parameter_type), at, count) is Ok,
    ensures
        ({
            let (choices, end) = items(choice_item(data, parameter_type), at, count)->Ok_0;
            &&& choices.len() == count
            &&& at <= end <= data.len()
            &&& data.subrange(at, end) == choice_list(choices)
        }),
    decreases count,
{
    let item = choice_item(data, parameter_type);
    let (choices, end) = items(item, at, count)->Ok_0;
    if count == 0 {
        assert(data.subrange(at, end) =~= seq![]);
    } else {
        lemma_choice_list(data, parameter_type, at, (count - 1) as nat);
        let (front, middle) = items(item, at, (count - 1) as nat)->Ok_0;
        let name = middle + width_of(parameter_type)->0;
        lemma_number_bytes(parameter_type, data, middle);
        law_counted_string_is_its_bytes(data, name, "choice name"@);
        assert(choices.drop_last() =~= front);
        assert(data.subrange(at, end) =~= data.subrange(at, middle) + data.subrange(middle, name)
            + data.subrange(name, end));
    }
}

/// Choices that are read are those of a description, each with its value and its label, and nothing
/// else is accepted.
pub proof fn law_choices_are_their_bytes(
    data: Seq<u8>,
    parameter_type: ParameterType,
    extended: bool,
)
    requires
        parsed_choices(data, parameter_type, extended) is Ok,
    ensures
        parsed_choices(data, parameter_type, extended) matches Ok(
            ConstraintView::Choice { choices },
        ) && data == choices_bytes(choices, extended),
{
    let start: int = if extended {
        2
    } else {
        1
    };
    let count = if extended {
        be16(data, 0) as nat
    } else {
        data[0] as nat
    };
    lemma_choice_list(data, parameter_type, start, count);
    let (choices, end) = items(choice_item(data, parameter_type), start, count)->Ok_0;
    assert(data =~= data.take(start) + data.subrange(start, end));
    if extended {
        lemma_be16_bytes(data, 0);
        assert(data.take(2) =~= seq![data[0], data[1]]);
    } else {
        assert(data.take(1) =~= seq![data[0]]);
    }
}

proof fn lemma_alarm_list(data: Seq<u8>, bit_width: u8, at: int, count: nat)
    requires
        0 <= at <= data.len(),
        items(alarm_item(data, bit_width), at, count) is Ok,
    ensures
        ({
            let (alarms, end) = items(alarm_item(data, bit_width), at, count)->Ok_0;
            &&& alarms.len() == count
            &&& at <= end <= data.len()
            &&& data.subrange(at, end) == alarm_list(alarms)
        }),
    decreases count,
{
    let item = alarm_item(data, bit_width);
    let (alarms, end) = items(item, at, count)->Ok_0;
    if count == 0 {
        assert(data.subrange(at, end) =~= seq![]);
    } else {
        lemma_alarm_list(data, bit_width, at, (count - 1) as nat);
        let (front, middle) = items(item, at, (count - 1) as nat)->Ok_0;
        law_counted_string_is_its_bytes(data, middle + 2, "alarm name"@);
        assert(alarms.drop_last() =~= front);
        assert(data.subrange(at, end) =~= data.subrange(at, middle) + seq![
            data[middle],
            data[middle + 1],
        ] + data.subrange(middle + 2, end));
    }
}

/// Alarms that are read are those of a description, each with its bit, its severity and its name,
/// and nothing else is accepted.
pub proof fn law_alarms_are_their_bytes(data: Seq<u8>, parameter_type: ParameterType)
    requires
        parsed_alarms(data, parameter_type) is Ok,
    ensures
        parsed_alarms(data, parameter_type) matches Ok(ConstraintView::AlarmTable { alarms })
            && data == seq![alarms.len() as u8] + alarm_list(alarms),
{
    let bit_width = bit_width_of(parameter_type)->0;
    lemma_alarm_list(data, bit_width, 1, data[0] as nat);
    let (alarms, end) = items(alarm_item(data, bit_width), 1, data[0] as nat)->Ok_0;
    assert(data =~= seq![data[0]] + data.subrange(1, end));
}

/// String choices that are read are those of a description, and nothing else is accepted.
pub proof fn law_string_choices_are_their_bytes(data: Seq<u8>)
    requires
        parsed_string_choices(data) is Ok,
    ensures
        parsed_string_choices(data) matches Ok(ConstraintView::StringChoice { choices, .. })
            && data == be16_bytes(choices.len() as u16) + counted_list(choices),
{
    let count = be16(data, 0) as nat;
    law_counted_strings_are_their_bytes(data, 2, count, "string choice"@);
    let (choices, end) = counted_strings(data, 2, count, "string choice"@)->Ok_0;
    lemma_be16_bytes(data, 0);
    assert(data =~= seq![data[0], data[1]] + data.subrange(2, end));
}

} // verus!
