//! Laws of values: what is written is read back, and what is accepted is allowed.

use crate::bytes::{
    law_be16_round_trip, law_be32_round_trip, law_twos_complement_round_trip, law_utf8_round_trip,
    unsigned16, unsigned32,
};
use crate::csv_output::raw_text;
use crate::decimal::round_trip::law_float_text_round_trip;
use crate::model::{
    active_alarms, bit_mask, hex_digits, labels_of, resolved, same_value, type_accepts,
    unknown_bits, ActiveAlarmView, AlarmView, ChoiceView, ConstraintView, ParameterView, ValueView,
};
use crate::number::{
    float_number, law_multiple_of_step_is_on_step, law_number_between_steps_is_off_step,
};
use crate::text::{decimal, fold, lemma_decimal, signed_decimal, signed_value, starts_with};
use crate::value::{
    action_of, allowed, choice_of, decoded_value, encoded_value, labelled, parsed_text,
    written_value, ValueErrorView,
};
use vstd::arithmetic::div_mod::*;
use vstd::arithmetic::power2::*;
use vstd::prelude::*;
use vstd::utf8::*;

verus! {

/// The bytes that a value is written as are read as that value.
pub proof fn law_value_round_trip(parameter: ParameterView, value: ValueView)
    requires
        encoded_value(parameter, value) is Ok,
    ensures
        decoded_value(parameter.parameter_type, encoded_value(parameter, value)->Ok_0) == Ok::<
            _,
            ValueErrorView,
        >(value),
{
    let bytes = encoded_value(parameter, value)->Ok_0;
    match value {
        ValueView::Int16 { value } => {
            law_be16_round_trip(unsigned16(value), seq![], seq![]);
            assert(Seq::<u8>::empty() + bytes + Seq::<u8>::empty() =~= bytes);
            law_twos_complement_round_trip(value, 0);
        },
        ValueView::Int32 { value } => {
            law_be32_round_trip(unsigned32(value), seq![], seq![]);
            assert(Seq::<u8>::empty() + bytes + Seq::<u8>::empty() =~= bytes);
            law_twos_complement_round_trip(0, value);
        },
        ValueView::Float32 { value } => {
            law_be32_round_trip(value.bits, seq![], seq![]);
            assert(Seq::<u8>::empty() + bytes + Seq::<u8>::empty() =~= bytes);
        },
        ValueView::String { value } => {
            law_utf8_round_trip(value);
            assert(bytes.drop_last() =~= encode_utf8(value));
        },
    }
}

/// A value that is written is of the type of the parameter and allowed by its constraint.
pub proof fn law_written_value_is_allowed(parameter: ParameterView, value: ValueView)
    requires
        encoded_value(parameter, value) is Ok,
    ensures
        type_accepts(parameter.parameter_type, value),
        allowed(parameter.constraint, value) is Ok,
{
}

/// Whether a value equals itself, as all do but a float that is no number.
pub open spec fn is_proper(value: ValueView) -> bool {
    value matches ValueView::Float32 { value } ==> !(float_number(value.bits) is NotANumber)
}

proof fn lemma_labelled(choices: Seq<ChoiceView>, text: Seq<char>)
    ensures
        forall|i: int|
            0 <= i < choices.filter(labelled(text)).len() ==> choices.contains(
                #[trigger] choices.filter(labelled(text))[i],
            ) && fold(choices.filter(labelled(text))[i].display_name) == fold(text),
    decreases choices.len(),
{
    reveal(Seq::filter);
    if choices.len() > 0 {
        let front = choices.drop_last();
        lemma_labelled(front, text);
        let all = choices.filter(labelled(text));
        let before = front.filter(labelled(text));
        assert forall|i: int| 0 <= i < all.len() implies choices.contains(#[trigger] all[i])
            && fold(all[i].display_name) == fold(text) by {
            if i < before.len() {
                assert(all[i] == before[i]);
                let k = choose|k: int| 0 <= k < front.len() && front[k] == before[i];
                assert(choices[k] == all[i]);
            } else {
                assert(choices[choices.len() - 1] == all[i]);
            }
        }
    }
}

/// The value that a text means is one that the constraint allows.
pub proof fn law_parsed_value_is_allowed(parameter: ParameterView, text: Seq<char>)
    requires
        parsed_text(parameter, text) is Ok,
        is_proper(parsed_text(parameter, text)->Ok_0),
    ensures
        allowed(parameter.constraint, parsed_text(parameter, text)->Ok_0) is Ok,
{
    let value = parsed_text(parameter, text)->Ok_0;
    if choice_of(parameter, text) is Some {
        let choices = resolved(parameter.constraint)->Choice_choices;
        let matches = choices.filter(labelled(text));
        lemma_labelled(choices, text);
        assert(choices.contains(matches[0]));
        let k = if action_of(parameter) is Some {
            choices.len() - 1
        } else {
            choose|k: int| 0 <= k < choices.len() && choices[k] == matches[0]
        };
        assert(choices[k].value == value);
        assert(same_value(choices[k].value, value));
        assert(allowed(resolved(parameter.constraint), value) is Ok);
    }
}

/// Whatever text a button accepts means the value of its action.
pub proof fn law_button_takes_its_action(parameter: ParameterView, text: Seq<char>)
    requires
        action_of(parameter) is Some,
        parsed_text(parameter, text) is Ok,
    ensures
        parsed_text(parameter, text)->Ok_0 == action_of(parameter)->0 || same_value(
            parsed_text(parameter, text)->Ok_0,
            action_of(parameter)->0,
        ),
{
}

/// The case of the letters of a label does not matter.
pub proof fn law_choice_ignores_case(
    parameter: ParameterView,
    left: Seq<char>,
    right: Seq<char>,
)
    requires
        fold(left) == fold(right),
        choice_of(parameter, left) matches Some(Ok(_)),
    ensures
        choice_of(parameter, right) == choice_of(parameter, left),
{
    if let ConstraintView::Choice { choices } = resolved(parameter.constraint) {
        lemma_same_labels(choices, left, right);
    }
}

proof fn lemma_same_labels(choices: Seq<ChoiceView>, left: Seq<char>, right: Seq<char>)
    requires
        fold(left) == fold(right),
    ensures
        choices.filter(labelled(left)) == choices.filter(labelled(right)),
    decreases choices.len(),
{
    reveal(Seq::filter);
    if choices.len() > 0 {
        lemma_same_labels(choices.drop_last(), left, right);
    }
}

/// A value is shown under the label of each choice that has it.
pub proof fn law_choice_is_shown_by_its_label(choices: Seq<ChoiceView>, value: ValueView, i: int)
    requires
        0 <= i < choices.len(),
        same_value(choices[i].value, value),
    ensures
        labels_of(choices, value).contains(choices[i].display_name),
    decreases choices.len(),
{
    let front = choices.drop_last();
    let before = labels_of(front, value);
    let all = labels_of(choices, value);
    if i < front.len() {
        law_choice_is_shown_by_its_label(front, value, i);
        let k = choose|k: int| 0 <= k < before.len() && before[k] == choices[i].display_name;
        assert(all[k] == choices[i].display_name);
    } else if !before.contains(choices[i].display_name) {
        assert(all[before.len() as int] == choices[i].display_name);
    }
}

proof fn lemma_signed_decimal(n: int)
    ensures
        signed_value(signed_decimal(n)) == Some(n),
        hex_digits(signed_decimal(n)) is None,
{
    reveal_strlit("0x");
    reveal_strlit("0X");
    let text = signed_decimal(n);
    let digits = decimal(
        if n < 0 {
            -n
        } else {
            n
        } as nat,
    );
    lemma_decimal(
        if n < 0 {
            -n
        } else {
            n
        } as nat,
    );
    if n < 0 {
        assert(text.drop_first() =~= digits);
        assert(text[0] == '-');
    } else {
        assert('0' <= digits[0] <= '9');
        if text.len() > 1 {
            assert('0' <= digits[1] <= '9');
        }
    }
    if starts_with(text, "0x"@) {
        assert(text.take(2)[0] == '0' && text.take(2)[1] == 'x');
    }
    if starts_with(text, "0X"@) {
        assert(text.take(2)[0] == '0' && text.take(2)[1] == 'X');
    }
}

/// The text of a number is read as that number.
pub proof fn law_number_text_round_trip(parameter: ParameterView, value: ValueView)
    requires
        type_accepts(parameter.parameter_type, value),
        !(value is String),
        is_proper(value),
    ensures
        written_value(parameter, raw_text(value)) == Ok::<_, ValueErrorView>(value),
{
    match value {
        ValueView::Int16 { value } => lemma_signed_decimal(value as int),
        ValueView::Int32 { value } => lemma_signed_decimal(value as int),
        ValueView::Float32 { value } => law_float_text_round_trip(value.bits),
        ValueView::String { .. } => {},
    }
}

/// Whether a bit of a number is set.
pub open spec fn has_bit(bits: u32, bit: u8) -> bool {
    bits & bit_mask(bit) != 0
}

/// A bit is left over exactly where it is set and no alarm has it.
pub proof fn law_unknown_bits_have_no_alarm(bits: u32, alarms: Seq<AlarmView>, bit: u8)
    requires
        bit < 32,
        forall|i: int| 0 <= i < alarms.len() ==> (#[trigger] alarms[i]).bit < 32,
    ensures
        has_bit(unknown_bits(bits, alarms), bit) <==> has_bit(bits, bit) && !exists|i: int|
            0 <= i < alarms.len() && (#[trigger] alarms[i]).bit == bit,
    decreases alarms.len(),
{
    if alarms.len() > 0 {
        let front = alarms.drop_last();
        let last = alarms.last();
        assert forall|i: int| 0 <= i < front.len() implies (#[trigger] front[i]).bit < 32 by {
            assert(front[i] == alarms[i]);
        }
        law_unknown_bits_have_no_alarm(bits, front, bit);
        assert(alarms[alarms.len() - 1].bit < 32);
        let before = unknown_bits(bits, front);
        let b = bit as u32;
        let c = last.bit as u32;
        assert((before & !(1u32 << c)) & (1u32 << b) == if b == c {
            0u32
        } else {
            before & (1u32 << b)
        }) by (bit_vector)
            requires
                b < 32,
                c < 32,
        ;
        if exists|i: int| 0 <= i < front.len() && (#[trigger] front[i]).bit == bit {
            let i = choose|i: int| 0 <= i < front.len() && (#[trigger] front[i]).bit == bit;
            assert(alarms[i].bit == bit);
        }
        if exists|i: int| 0 <= i < alarms.len() && (#[trigger] alarms[i]).bit == bit {
            let i = choose|i: int| 0 <= i < alarms.len() && (#[trigger] alarms[i]).bit == bit;
            if i < front.len() {
                assert(front[i].bit == bit);
            }
        }
    }
}

/// Each active alarm is one of the table whose bit is set, and each such alarm is active.
pub proof fn law_active_alarms_are_those_set(bits: u32, alarms: Seq<AlarmView>, alarm: AlarmView)
    ensures
        alarms.contains(alarm) && has_bit(bits, alarm.bit) <==> alarms.contains(alarm)
            && active_alarms(bits, alarms).contains(
            ActiveAlarmView {
                bit: alarm.bit,
                mask: bit_mask(alarm.bit),
                name: alarm.name,
                severity_value: alarm.severity_value,
            },
        ),
    decreases alarms.len(),
{
    let shown = ActiveAlarmView {
        bit: alarm.bit,
        mask: bit_mask(alarm.bit),
        name: alarm.name,
        severity_value: alarm.severity_value,
    };
    let all = active_alarms(bits, alarms);
    if alarms.contains(alarm) {
        let i = choose|i: int| 0 <= i < alarms.len() && alarms[i] == alarm;
        if has_bit(bits, alarm.bit) {
            lemma_active(bits, alarms, i);
        }
        if all.contains(shown) {
            let k = choose|k: int| 0 <= k < all.len() && all[k] == shown;
            lemma_active_is_set(bits, alarms, k);
        }
    }
}

proof fn lemma_active(bits: u32, alarms: Seq<AlarmView>, i: int)
    requires
        0 <= i < alarms.len(),
        has_bit(bits, alarms[i].bit),
    ensures
        active_alarms(bits, alarms).contains(
            ActiveAlarmView {
                bit: alarms[i].bit,
                mask: bit_mask(alarms[i].bit),
                name: alarms[i].name,
                severity_value: alarms[i].severity_value,
            },
        ),
    decreases alarms.len(),
{
    let front = alarms.drop_last();
    let before = active_alarms(bits, front);
    let all = active_alarms(bits, alarms);
    if i < front.len() {
        lemma_active(bits, front, i);
        let shown = ActiveAlarmView {
            bit: alarms[i].bit,
            mask: bit_mask(alarms[i].bit),
            name: alarms[i].name,
            severity_value: alarms[i].severity_value,
        };
        let k = choose|k: int| 0 <= k < before.len() && before[k] == shown;
        assert(all[k] == shown);
    } else {
        assert(all[before.len() as int].bit == alarms[i].bit);
    }
}

proof fn lemma_active_is_set(bits: u32, alarms: Seq<AlarmView>, k: int)
    requires
        0 <= k < active_alarms(bits, alarms).len(),
    ensures
        has_bit(bits, active_alarms(bits, alarms)[k].bit),
    decreases alarms.len(),
{
    if alarms.len() > 0 {
        let front = alarms.drop_last();
        let before = active_alarms(bits, front);
        if k < before.len() {
            lemma_active_is_set(bits, front, k);
        }
    }
}

/// A 16-bit integer is allowed by a range with a step exactly where it lies between the ends and a
/// whole count of steps above the minimum.
pub proof fn law_int16_range(
    minimum: i16,
    maximum: i16,
    display_minimum: Option<ValueView>,
    display_maximum: Option<ValueView>,
    step: i16,
    value: i16,
)
    requires
        step > 0,
    ensures
        allowed(
            ConstraintView::Range {
                minimum: ValueView::Int16 { value: minimum },
                maximum: ValueView::Int16 { value: maximum },
                display_minimum,
                display_maximum,
                step: Some(ValueView::Int16 { value: step }),
            },
            ValueView::Int16 { value },
        ) is Ok <==> minimum <= value <= maximum && (value - minimum) % (step as int) == 0,
{
    let a = pow2(149) as int;
    let v = value as int;
    let low = minimum as int;
    let high = maximum as int;
    lemma_pow2_pos(149);
    assert((v * a < low * a) == (v < low)) by (nonlinear_arith)
        requires
            a > 0,
    ;
    assert((high * a < v * a) == (high < v)) by (nonlinear_arith)
        requires
            a > 0,
    ;
    if low <= v <= high {
        let s = step as int;
        let count = ((v - low) / s) as nat;
        let rest = ((v - low) % s) as nat;
        lemma_fundamental_div_mod(v - low, s);
        lemma_div_pos_is_pos(v - low, s);
        lemma_mod_bound(v - low, s);
        lemma2_to64_rest();
        lemma_pow2_strictly_increases(32, 53);
        lemma2_to64();
        assert(low + s * count + rest == v);
        if rest == 0 {
            law_multiple_of_step_is_on_step(low, step as nat, count);
        } else {
            law_number_between_steps_is_off_step(low, step as nat, count, rest);
        }
    }
}

/// A range of 32-bit integers with a step of at most 65536 allows the multiples of the step above its
/// minimum, up to its maximum.
pub proof fn law_int32_range(
    minimum: i32,
    maximum: i32,
    display_minimum: Option<ValueView>,
    display_maximum: Option<ValueView>,
    step: i32,
    value: i32,
)
    requires
        0 < step <= 0x1_0000,
    ensures
        allowed(
            ConstraintView::Range {
                minimum: ValueView::Int32 { value: minimum },
                maximum: ValueView::Int32 { value: maximum },
                display_minimum,
                display_maximum,
                step: Some(ValueView::Int32 { value: step }),
            },
            ValueView::Int32 { value },
        ) is Ok <==> minimum <= value <= maximum && (value - minimum) % (step as int) == 0,
{
    let a = pow2(149) as int;
    let v = value as int;
    let low = minimum as int;
    let high = maximum as int;
    lemma_pow2_pos(149);
    assert((v * a < low * a) == (v < low)) by (nonlinear_arith)
        requires
            a > 0,
    ;
    assert((high * a < v * a) == (high < v)) by (nonlinear_arith)
        requires
            a > 0,
    ;
    if low <= v <= high {
        let s = step as int;
        let count = ((v - low) / s) as nat;
        let rest = ((v - low) % s) as nat;
        lemma_fundamental_div_mod(v - low, s);
        lemma_div_pos_is_pos(v - low, s);
        lemma_mod_bound(v - low, s);
        lemma2_to64_rest();
        lemma_pow2_strictly_increases(32, 53);
        lemma2_to64();
        assert(low + s * count + rest == v);
        if rest == 0 {
            law_multiple_of_step_is_on_step(low, step as nat, count);
        } else {
            law_number_between_steps_is_off_step(low, step as nat, count, rest);
        }
    }
}

} // verus!
