//! How each constraint is laid out, and that it is read as it was written.

use super::constraint::{
    alarm_item, bit_width_of, choice_item, number_at, parsed_alarms, parsed_choices,
    parsed_constraint, parsed_external, parsed_range, parsed_string_choices, range_valid, width_of,
};
use super::error::ProtocolErrorView;
use super::items::{
    counted_bytes, counted_list, countable, items, law_counted_string_round_trip,
    law_counted_strings_round_trip,
};
use crate::bytes::{
    be16, be16_bytes, be32_bytes, law_be16_round_trip, law_be32_round_trip,
    law_twos_complement_round_trip, unsigned16, unsigned32,
};
use crate::model::{
    alarms_fit, resolved, AlarmView, ChoiceView, ConstraintView, ParameterType, ValueView,
};
use vstd::prelude::*;

verus! {

/// A number, high byte first.
pub open spec fn number_bytes(value: ValueView) -> Seq<u8> {
    match value {
        ValueView::Int16 { value } => be16_bytes(unsigned16(value)),
        ValueView::Int32 { value } => be32_bytes(unsigned32(value)),
        ValueView::Float32 { value } => be32_bytes(value.bits),
        ValueView::String { .. } => seq![],
    }
}

/// Whether a number, as it comes from a device, is of the type or of its elements.
pub open spec fn number_fits(value: ValueView, parameter_type: ParameterType) -> bool {
    match (parameter_type, value) {
        (ParameterType::Int16, ValueView::Int16 { .. }) => true,
        (ParameterType::Int16Array { .. }, ValueView::Int16 { .. }) => true,
        (ParameterType::Int32, ValueView::Int32 { .. }) => true,
        (ParameterType::Int32Array { .. }, ValueView::Int32 { .. }) => true,
        (ParameterType::Float32, ValueView::Float32 { .. }) => true,
        (ParameterType::Float32Array { .. }, ValueView::Float32 { .. }) => true,
        _ => false,
    }
}

/// A number is read as it was written.
pub proof fn law_number_round_trip(
    before: Seq<u8>,
    value: ValueView,
    after: Seq<u8>,
    parameter_type: ParameterType,
)
    requires
        number_fits(value, parameter_type),
    ensures
        width_of(parameter_type) == Some(number_bytes(value).len()),
        number_at(parameter_type, before + number_bytes(value) + after, before.len() as int)
            == value,
{
    match value {
        ValueView::Int16 { value } => {
            law_be16_round_trip(unsigned16(value), before, after);
            law_twos_complement_round_trip(value, 0);
        },
        ValueView::Int32 { value } => {
            law_be32_round_trip(unsigned32(value), before, after);
            law_twos_complement_round_trip(0, value);
        },
        ValueView::Float32 { value } => {
            law_be32_round_trip(value.bits, before, after);
        },
        ValueView::String { .. } => {},
    }
}

/// Choices one behind the other: the number of each, and its label behind its length.
pub open spec fn choice_list(choices: Seq<ChoiceView>) -> Seq<u8>
    decreases choices.len(),
{
    if choices.len() == 0 {
        seq![]
    } else {
        choice_list(choices.drop_last()) + number_bytes(choices.last().value) + counted_bytes(
            choices.last().display_name,
        )
    }
}

/// Whether a choice, as it comes from a device, can be written.
pub open spec fn choice_fits(choice: ChoiceView, parameter_type: ParameterType) -> bool {
    number_fits(choice.value, parameter_type) && countable(choice.display_name)
}

proof fn lemma_choices_round_trip(
    before: Seq<u8>,
    choices: Seq<ChoiceView>,
    after: Seq<u8>,
    parameter_type: ParameterType,
)
    requires
        forall|i: int| 0 <= i < choices.len() ==> choice_fits(#[trigger] choices[i], parameter_type),
    ensures
        items(
            choice_item(before + choice_list(choices) + after, parameter_type),
            before.len() as int,
            choices.len(),
        ) == Ok::<_, ProtocolErrorView>(
            (choices, (before.len() + choice_list(choices).len()) as int),
        ),
    decreases choices.len(),
{
    let data = before + choice_list(choices) + after;
    if choices.len() == 0 {
        assert(choices =~= seq![]);
    } else {
        let front = choices.drop_last();
        let last = choices.last();
        let number = number_bytes(last.value);
        let label = counted_bytes(last.display_name);
        assert forall|i: int| 0 <= i < front.len() implies choice_fits(
            #[trigger] front[i],
            parameter_type,
        ) by {
            assert(front[i] == choices[i]);
        }
        lemma_choices_round_trip(before, front, number + label + after, parameter_type);
        lemma_append(before, choice_list(front), number, label, after);
        assert(choice_fits(choices[choices.len() - 1], parameter_type));
        lemma_choice_round_trip(before + choice_list(front), last, after, parameter_type);
        assert(front.push(last) =~= choices);
    }
}

/// An item of two parts that is appended to a list, with what stands around the list.
proof fn lemma_append(
    before: Seq<u8>,
    list: Seq<u8>,
    first: Seq<u8>,
    second: Seq<u8>,
    after: Seq<u8>,
)
    ensures
        before + (list + first + second) + after == before + list + (first + second + after),
        before + (list + first + second) + after == (before + list) + first + second + after,
{
    let data = before + (list + first + second) + after;
    assert(data =~= before + list + (first + second + after));
    assert(data =~= (before + list) + first + second + after);
}

proof fn lemma_choice_round_trip(
    before: Seq<u8>,
    choice: ChoiceView,
    after: Seq<u8>,
    parameter_type: ParameterType,
)
    requires
        choice_fits(choice, parameter_type),
    ensures
        ({
            let number = number_bytes(choice.value);
            let label = counted_bytes(choice.display_name);
            let data = before + number + label + after;
            choice_item(data, parameter_type)(before.len() as int) == Ok::<_, ProtocolErrorView>(
                (choice, (before.len() + number.len() + label.len()) as int),
            )
        }),
{
    let number = number_bytes(choice.value);
    let label = counted_bytes(choice.display_name);
    let data = before + number + label + after;
    law_number_round_trip(before, choice.value, label + after, parameter_type);
    assert(before + number + (label + after) =~= data);
    law_counted_string_round_trip(before + number, choice.display_name, after, "choice name"@);
}

/// Choices: how many, in 16 bits where `extended` is set and in 8 otherwise, and the choices.
pub open spec fn choices_bytes(choices: Seq<ChoiceView>, extended: bool) -> Seq<u8> {
    (if extended {
        be16_bytes(choices.len() as u16)
    } else {
        seq![choices.len() as u8]
    }) + choice_list(choices)
}

/// Choices are read as they were written.
pub proof fn law_choices_round_trip(
    choices: Seq<ChoiceView>,
    parameter_type: ParameterType,
    extended: bool,
)
    requires
        width_of(parameter_type) is Some,
        choices.len() <= if extended {
            0xFFFFnat
        } else {
            0xFFnat
        },
        forall|i: int| 0 <= i < choices.len() ==> choice_fits(#[trigger] choices[i], parameter_type),
    ensures
        parsed_choices(choices_bytes(choices, extended), parameter_type, extended) == Ok::<
            _,
            ProtocolErrorView,
        >(ConstraintView::Choice { choices }),
{
    let count = if extended {
        be16_bytes(choices.len() as u16)
    } else {
        seq![choices.len() as u8]
    };
    let data = choices_bytes(choices, extended);
    assert(data =~= count + choice_list(choices) + seq![]);
    lemma_choices_round_trip(count, choices, seq![], parameter_type);
    assert(data[0] == count[0]);
    if extended {
        assert(data[1] == count[1]);
    }
}

/// Choices of a text are read as they were written.
pub proof fn law_string_choices_round_trip(choices: Seq<Seq<char>>)
    requires
        choices.len() <= 0xFFFF,
        forall|i: int| 0 <= i < choices.len() ==> countable(#[trigger] choices[i]),
    ensures
        parsed_string_choices(be16_bytes(choices.len() as u16) + counted_list(choices)) == Ok::<
            _,
            ProtocolErrorView,
        >(ConstraintView::StringChoice { choices, arbitrary_values_allowed: true }),
{
    let count = be16_bytes(choices.len() as u16);
    let data = count + counted_list(choices);
    assert(data =~= count + counted_list(choices) + seq![]);
    law_counted_strings_round_trip(count, choices, seq![], "string choice"@);
    assert(data[0] == count[0] && data[1] == count[1]);
}

/// Alarms one behind the other: the bit, the severity, and the name behind its length.
pub open spec fn alarm_list(alarms: Seq<AlarmView>) -> Seq<u8>
    decreases alarms.len(),
{
    if alarms.len() == 0 {
        seq![]
    } else {
        alarm_list(alarms.drop_last()) + seq![
            alarms.last().bit,
            alarms.last().severity_value,
        ] + counted_bytes(alarms.last().name)
    }
}

proof fn lemma_alarms_round_trip(
    before: Seq<u8>,
    alarms: Seq<AlarmView>,
    after: Seq<u8>,
    bit_width: u8,
)
    requires
        forall|i: int|
            0 <= i < alarms.len() ==> countable((#[trigger] alarms[i]).name) && alarms[i].bit
                < bit_width,
    ensures
        items(
            alarm_item(before + alarm_list(alarms) + after, bit_width),
            before.len() as int,
            alarms.len(),
        ) == Ok::<_, ProtocolErrorView>(
            (alarms, (before.len() + alarm_list(alarms).len()) as int),
        ),
    decreases alarms.len(),
{
    let data = before + alarm_list(alarms) + after;
    if alarms.len() == 0 {
        assert(alarms =~= seq![]);
    } else {
        let front = alarms.drop_last();
        let last = alarms.last();
        let head = seq![last.bit, last.severity_value];
        let name = counted_bytes(last.name);
        assert forall|i: int| 0 <= i < front.len() implies countable((#[trigger] front[i]).name)
            && front[i].bit < bit_width by {
            assert(front[i] == alarms[i]);
        }
        lemma_alarms_round_trip(before, front, head + name + after, bit_width);
        lemma_append(before, alarm_list(front), head, name, after);
        assert(countable(alarms[alarms.len() - 1].name) && last.bit < bit_width);
        let start = before + alarm_list(front);
        law_counted_string_round_trip(start + head, last.name, after, "alarm name"@);
        assert(data[start.len() as int] == head[0] && data[start.len() as int + 1] == head[1]);
        assert(front.push(last) =~= alarms);
    }
}

/// Alarms whose bits the parameter has are read as they were written.
pub proof fn law_alarms_round_trip(alarms: Seq<AlarmView>, parameter_type: ParameterType)
    requires
        bit_width_of(parameter_type) is Some,
        alarms.len() <= 0xFF,
        forall|i: int|
            0 <= i < alarms.len() ==> countable((#[trigger] alarms[i]).name) && alarms[i].bit
                < bit_width_of(parameter_type)->0,
    ensures
        parsed_alarms(seq![alarms.len() as u8] + alarm_list(alarms), parameter_type) == Ok::<
            _,
            ProtocolErrorView,
        >(ConstraintView::AlarmTable { alarms }),
{
    let count = seq![alarms.len() as u8];
    let data = count + alarm_list(alarms);
    assert(data =~= count + alarm_list(alarms) + seq![]);
    lemma_alarms_round_trip(count, alarms, seq![], bit_width_of(parameter_type)->0);
    assert(data[0] == count[0]);
}

/// A range with a step or without, on which a display scale can lie.
pub open spec fn range_bytes(
    minimum: ValueView,
    maximum: ValueView,
    scale: Option<(ValueView, ValueView)>,
    step: Option<ValueView>,
) -> Seq<u8> {
    number_bytes(minimum) + number_bytes(maximum) + (match scale {
        Some((low, high)) => number_bytes(low) + number_bytes(high),
        None => seq![],
    }) + (match step {
        Some(step) => number_bytes(step),
        None => seq![],
    })
}

/// A valid range is read as it was written.
pub proof fn law_range_round_trip(
    minimum: ValueView,
    maximum: ValueView,
    scale: Option<(ValueView, ValueView)>,
    step: Option<ValueView>,
    parameter_type: ParameterType,
)
    requires
        number_fits(minimum, parameter_type),
        number_fits(maximum, parameter_type),
        scale matches Some((low, high)) ==> number_fits(low, parameter_type) && number_fits(
            high,
            parameter_type,
        ),
        step matches Some(step) ==> number_fits(step, parameter_type),
        range_valid(minimum, maximum, step),
    ensures
        parsed_range(
            range_bytes(minimum, maximum, scale, step),
            parameter_type,
            step is Some,
        ) == Ok::<_, ProtocolErrorView>(
            ConstraintView::Range {
                minimum,
                maximum,
                display_minimum: match scale {
                    Some((low, _)) => Some(low),
                    None => None,
                },
                display_maximum: match scale {
                    Some((_, high)) => Some(high),
                    None => None,
                },
                step,
            },
        ),
{
    let data = range_bytes(minimum, maximum, scale, step);
    lemma_range_places(minimum, maximum, scale, step, parameter_type);
    let width = width_of(parameter_type)->0;
    if width == 2 {
        assert(0 * width == 0 && 1 * width == 2 && 2 * width == 4 && 3 * width == 6 && 4 * width
            == 8);
    } else {
        assert(0 * width == 0 && 1 * width == 4 && 2 * width == 8 && 3 * width == 12 && 4 * width
            == 16);
    }
}

proof fn lemma_range_places(
    minimum: ValueView,
    maximum: ValueView,
    scale: Option<(ValueView, ValueView)>,
    step: Option<ValueView>,
    parameter_type: ParameterType,
)
    requires
        number_fits(minimum, parameter_type),
        number_fits(maximum, parameter_type),
        scale matches Some((low, high)) ==> number_fits(low, parameter_type) && number_fits(
            high,
            parameter_type,
        ),
        step matches Some(step) ==> number_fits(step, parameter_type),
    ensures
        width_of(parameter_type) == Some(2nat) || width_of(parameter_type) == Some(4nat),
        ({
            let data = range_bytes(minimum, maximum, scale, step);
            let width = width_of(parameter_type)->0 as int;
            &&& data.len() == 2 * width + (if scale is Some {
                2 * width
            } else {
                0
            }) + (if step is Some {
                width
            } else {
                0
            })
            &&& number_at(parameter_type, data, 0) == minimum
            &&& number_at(parameter_type, data, width) == maximum
            &&& scale matches Some((low, high)) ==> number_at(parameter_type, data, 2 * width)
                == low && number_at(parameter_type, data, 3 * width) == high
            &&& step matches Some(step) ==> number_at(
                parameter_type,
                data,
                if scale is Some {
                    4 * width
                } else {
                    2 * width
                },
            ) == step
        }),
{
    let low = number_bytes(minimum);
    let high = number_bytes(maximum);
    let (one, two) = match scale {
        Some((low, high)) => (number_bytes(low), number_bytes(high)),
        None => (seq![], seq![]),
    };
    let stepped = match step {
        Some(step) => number_bytes(step),
        None => seq![],
    };
    let data = low + high + (one + two) + stepped;
    lemma_regroup(low, high, one, two, stepped);
    assert(range_bytes(minimum, maximum, scale, step) == data) by {
        if scale is None {
            assert(one + two =~= seq![]);
        }
    }
    lemma_number_place(data, seq![], minimum, high + (one + two) + stepped, parameter_type);
    lemma_number_place(data, low, maximum, (one + two) + stepped, parameter_type);
    if let Some((first, second)) = scale {
        lemma_number_place(data, low + high, first, two + stepped, parameter_type);
        lemma_number_place(data, low + high + one, second, stepped, parameter_type);
    }
    if let Some(step) = step {
        lemma_number_place(data, low + high + (one + two), step, seq![], parameter_type);
    }
}

proof fn lemma_regroup(a: Seq<u8>, b: Seq<u8>, c: Seq<u8>, d: Seq<u8>, e: Seq<u8>)
    ensures
        ({
            let data = a + b + (c + d) + e;
            &&& data == Seq::<u8>::empty() + a + (b + (c + d) + e)
            &&& data == a + b + ((c + d) + e)
            &&& data == (a + b) + c + (d + e)
            &&& data == (a + b + c) + d + e
            &&& data == (a + b + (c + d)) + e + Seq::<u8>::empty()
        }),
{
    let data = a + b + (c + d) + e;
    assert(data =~= Seq::<u8>::empty() + a + (b + (c + d) + e));
    assert(data =~= a + b + ((c + d) + e));
    assert(data =~= (a + b) + c + (d + e));
    assert(data =~= (a + b + c) + d + e);
    assert(data =~= (a + b + (c + d)) + e + Seq::<u8>::empty());
}

proof fn lemma_number_place(
    data: Seq<u8>,
    before: Seq<u8>,
    value: ValueView,
    after: Seq<u8>,
    parameter_type: ParameterType,
)
    requires
        data == before + number_bytes(value) + after,
        number_fits(value, parameter_type),
    ensures
        width_of(parameter_type) == Some(number_bytes(value).len()),
        number_at(parameter_type, data, before.len() as int) == value,
{
    law_number_round_trip(before, value, after, parameter_type);
}

proof fn lemma_alarm_bits(data: Seq<u8>, bit_width: u8, at: int, count: nat)
    requires
        items(alarm_item(data, bit_width), at, count) is Ok,
    ensures
        forall|i: int|
            0 <= i < count ==> (#[trigger] items(
                alarm_item(data, bit_width),
                at,
                count,
            )->Ok_0.0[i]).bit < bit_width,
        items(alarm_item(data, bit_width), at, count)->Ok_0.0.len() == count,
    decreases count,
{
    if count > 0 {
        lemma_alarm_bits(data, bit_width, at, (count - 1) as nat);
    }
}

/// Every alarm that a device defines has a bit of a 32-bit number, so that a value can be shown.
pub proof fn law_alarm_bits_fit(type_id: u8, data: Seq<u8>, parameter_type: ParameterType)
    requires
        parsed_constraint(type_id, data, parameter_type) is Ok,
    ensures
        alarms_fit(parsed_constraint(type_id, data, parameter_type)->Ok_0),
        alarms_fit(resolved(parsed_constraint(type_id, data, parameter_type)->Ok_0)),
{
    if type_id == 10 {
        lemma_alarm_bits(data, bit_width_of(parameter_type)->0, 1, data[0] as nat);
    }
}

/// The same holds of the alarms in an external object, which never refers to another one.
pub proof fn law_external_constraint_is_inline(bytes: Seq<u8>, parameter_type: ParameterType)
    requires
        parsed_external(bytes, parameter_type) is Ok,
    ensures
        !(parsed_external(bytes, parameter_type)->Ok_0 is External),
        alarms_fit(parsed_external(bytes, parameter_type)->Ok_0),
{
    if be16(bytes, 0) == 1 {
        law_alarm_bits_fit(bytes[2], bytes.skip(4), parameter_type);
    }
}

} // verus!
