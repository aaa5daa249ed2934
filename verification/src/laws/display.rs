//! Laws of how values are shown: by label, by alarms, or by their place on a display scale.

use crate::model::{
    active_alarms, interpreted, labels_of, mapping_of, resolved, same_value, unknown_bits,
    value_bits, value_number, ActiveAlarmView, AlarmView, ChoiceView, ConstraintView,
    DisplayNumberView, DisplayView, MappingView, ParameterView, ValueView,
};
use crate::number::{same_number, Real};
use vstd::prelude::*;

verus! {

/// A value has a place on the display scale exactly where its range has one, all the values are
/// numbers and the ends of the range differ. The place is computed from the value, the ends of the
/// range and the ends of the scale, each as it stands in the constraint, and shown with as many
/// decimals as the precision says.
pub proof fn law_place_on_the_display_scale(
    parameter: ParameterView,
    minimum: ValueView,
    maximum: ValueView,
    display_minimum: Option<ValueView>,
    display_maximum: Option<ValueView>,
    step: Option<ValueView>,
    value: ValueView,
)
    requires
        resolved(parameter.constraint) == (ConstraintView::Range {
            minimum,
            maximum,
            display_minimum,
            display_maximum,
            step,
        }),
    ensures
        mapping_of(parameter, value) is Some <==> {
            &&& display_minimum matches Some(low) && !(low is String)
            &&& display_maximum matches Some(high) && !(high is String)
            &&& !(value is String) && !(minimum is String) && !(maximum is String)
            &&& !same_number(value_number(minimum)->0, value_number(maximum)->0)
        },
        mapping_of(parameter, value) matches Some(mapping) ==> {
            &&& mapping.value == value
            &&& mapping.minimum == minimum
            &&& mapping.maximum == maximum
            &&& display_minimum == Some(mapping.display_minimum)
            &&& display_maximum == Some(mapping.display_maximum)
            &&& parameter.precision is Some ==> parameter.precision == Some(mapping.decimals)
            &&& parameter.precision is None ==> mapping.decimals == 0
        },
{
}

/// Only a range has a display scale.
pub proof fn law_display_scale_is_that_of_a_range(parameter: ParameterView, value: ValueView)
    requires
        !(resolved(parameter.constraint) is Range),
    ensures
        mapping_of(parameter, value) is None,
{
}

/// The ends of a scale, or a value of it, in finite numbers.
pub open spec fn finite(value: ValueView) -> int {
    match value_number(value) {
        Some(Real::Finite(n)) => n,
        _ => 0,
    }
}

/// Whether `place` is where a mapping puts its value: as far along the display scale as the value
/// is along its range.
pub open spec fn is_place(mapping: MappingView, place: int) -> bool {
    (place - finite(mapping.display_minimum)) * (finite(mapping.maximum) - finite(mapping.minimum))
        == (finite(mapping.value) - finite(mapping.minimum)) * (finite(mapping.display_maximum)
        - finite(mapping.display_minimum))
}

/// The minimum is shown at the low end of the display scale, and the maximum at the high end.
pub proof fn law_ends_of_the_range_are_the_ends_of_the_scale(
    parameter: ParameterView,
    minimum: ValueView,
    maximum: ValueView,
    display_minimum: ValueView,
    display_maximum: ValueView,
    step: Option<ValueView>,
    place: int,
)
    requires
        resolved(parameter.constraint) == (ConstraintView::Range {
            minimum,
            maximum,
            display_minimum: Some(display_minimum),
            display_maximum: Some(display_maximum),
            step,
        }),
        value_number(minimum) matches Some(Real::Finite(_)),
        value_number(maximum) matches Some(Real::Finite(_)),
        value_number(display_minimum) matches Some(Real::Finite(_)),
        value_number(display_maximum) matches Some(Real::Finite(_)),
        value_number(minimum) != value_number(maximum),
    ensures
        mapping_of(parameter, minimum) is Some,
        mapping_of(parameter, maximum) is Some,
        is_place(mapping_of(parameter, minimum)->0, place) <==> place == finite(display_minimum),
        is_place(mapping_of(parameter, maximum)->0, place) <==> place == finite(display_maximum),
{
    let size = finite(maximum) - finite(minimum);
    let low = finite(display_minimum);
    let high = finite(display_maximum);
    assert((place - low) * size == 0 * (high - low) <==> place == low) by (nonlinear_arith)
        requires
            size != 0,
    ;
    assert((place - low) * size == size * (high - low) <==> place == high) by (nonlinear_arith)
        requires
            size != 0,
    ;
}

/// The place that was computed is what is shown, and it is shown for no other parameters.
pub proof fn law_place_is_shown(
    parameter: ParameterView,
    value: ValueView,
    number: DisplayNumberView,
)
    ensures
        mapping_of(parameter, value) is Some ==> interpreted(parameter, value, Some(number))
            == Some(DisplayView::Numeric { value: number.value, formatted: number.formatted }),
        resolved(parameter.constraint) is Range ==> interpreted(parameter, value, None) is None,
        interpreted(parameter, value, Some(number)) is Some && interpreted(
            parameter,
            value,
            Some(number),
        )->0 is Numeric ==> mapping_of(parameter, value) is Some,
{
}

/// The labels of a value are those of the choices that have it, each once and no others.
pub proof fn law_labels_are_those_of_the_value(
    choices: Seq<ChoiceView>,
    value: ValueView,
    label: Seq<char>,
)
    ensures
        labels_of(choices, value).contains(label) <==> exists|i: int|
            0 <= i < choices.len() && same_value((#[trigger] choices[i]).value, value)
                && choices[i].display_name == label,
        labels_of(choices, value).no_duplicates(),
    decreases choices.len(),
{
    let all = labels_of(choices, value);
    if choices.len() > 0 {
        let front = choices.drop_last();
        let before = labels_of(front, value);
        let last = choices.last();
        law_labels_are_those_of_the_value(front, value, label);
        if all.contains(label) && !before.contains(label) {
            assert(choices[choices.len() - 1].display_name == label);
        }
        if before.contains(label) {
            let i = choose|i: int|
                0 <= i < front.len() && same_value((#[trigger] front[i]).value, value)
                    && front[i].display_name == label;
            assert(choices[i] == front[i]);
            let k = choose|k: int| 0 <= k < before.len() && before[k] == label;
            assert(all[k] == label);
        }
        if exists|i: int|
            0 <= i < choices.len() && same_value((#[trigger] choices[i]).value, value)
                && choices[i].display_name == label {
            let i = choose|i: int|
                0 <= i < choices.len() && same_value((#[trigger] choices[i]).value, value)
                    && choices[i].display_name == label;
            if i < front.len() {
                assert(front[i] == choices[i]);
            } else if !before.contains(label) {
                assert(all[before.len() as int] == label);
            }
        }
    }
}

/// A value with one label is shown by it, one with several by all of them, and one with none as it
/// is.
pub proof fn law_value_is_shown_by_its_labels(
    parameter: ParameterView,
    value: ValueView,
    number: Option<DisplayNumberView>,
)
    requires
        resolved(parameter.constraint) is Choice,
    ensures
        ({
            let labels = labels_of(resolved(parameter.constraint)->Choice_choices, value);
            match interpreted(parameter, value, number) {
                None => labels.len() == 0,
                Some(DisplayView::Label { value }) => labels == seq![value],
                Some(DisplayView::Aliases { values }) => labels == values && values.len() >= 2,
                _ => false,
            }
        }),
{
    let labels = labels_of(resolved(parameter.constraint)->Choice_choices, value);
    if labels.len() == 1 {
        assert(labels =~= seq![labels[0]]);
    }
}

/// A text that is one of the string choices is its own label, and any other has none.
pub proof fn law_string_choice_is_its_own_label(
    parameter: ParameterView,
    text: Seq<char>,
    number: Option<DisplayNumberView>,
)
    requires
        resolved(parameter.constraint) is StringChoice,
    ensures
        ({
            let shown = interpreted(parameter, ValueView::String { value: text }, number);
            if resolved(parameter.constraint)->StringChoice_choices.contains(text) {
                shown == Some(DisplayView::Label { value: text })
            } else {
                shown is None
            }
        }),
{
}

/// The bits of an integer are those of its two's complement: they are the integer itself, or
/// the integer and a power of two.
pub proof fn law_bits_of_an_integer(value: ValueView)
    ensures
        match value {
            ValueView::Int16 { value } => value_bits(ValueView::Int16 { value }) matches Some(bits)
                && bits < 0x1_0000 && (bits == value || bits == value + 0x1_0000),
            ValueView::Int32 { value } => value_bits(ValueView::Int32 { value }) matches Some(bits)
                && (bits == value || bits == value + 0x1_0000_0000),
            _ => value_bits(value) is None,
        },
{
}

/// The labels of a value come in the order of the choices: those of the first choices come first,
/// and one that has the value adds its label where that is new.
pub proof fn law_labels_come_in_order(
    choices: Seq<ChoiceView>,
    choice: ChoiceView,
    value: ValueView,
)
    ensures
        ({
            let before = labels_of(choices, value);
            let after = labels_of(choices.push(choice), value);
            if same_value(choice.value, value) && !before.contains(choice.display_name) {
                after == before + seq![choice.display_name]
            } else {
                after == before
            }
        }),
        labels_of(seq![], value).len() == 0,
{
    let before = labels_of(choices, value);
    assert(choices.push(choice).drop_last() =~= choices);
    assert(before.push(choice.display_name) =~= before + seq![choice.display_name]);
}

/// A value of a parameter with alarms is shown by those whose bits it has set, in the order of the
/// table, and by the bits that no alarm has; a value that is no integer is shown as it is.
pub proof fn law_alarms_of_a_value(
    parameter: ParameterView,
    value: ValueView,
    number: Option<DisplayNumberView>,
)
    requires
        resolved(parameter.constraint) is AlarmTable,
    ensures
        ({
            let alarms = resolved(parameter.constraint)->AlarmTable_alarms;
            match value_bits(value) {
                Some(bits) => interpreted(parameter, value, number) matches Some(
                    DisplayView::Alarms { value: shown },
                ) && shown.active == active_alarms(bits, alarms) && shown.unknown_mask
                    == unknown_bits(bits, alarms),
                None => interpreted(parameter, value, number) is None,
            }
        }),
{
}

/// Alarms come in the order of the table: one whose bit is set adds itself, with its bit, its mask,
/// its name and its severity, and no other adds anything.
pub proof fn law_active_alarms_come_in_order(
    bits: u32,
    alarms: Seq<AlarmView>,
    alarm: AlarmView,
)
    requires
        alarm.bit < 32,
    ensures
        ({
            let before = active_alarms(bits, alarms);
            let after = active_alarms(bits, alarms.push(alarm));
            if bits & (1u32 << (alarm.bit as u32)) != 0 {
                after == before + seq![
                    ActiveAlarmView {
                        bit: alarm.bit,
                        mask: 1u32 << (alarm.bit as u32),
                        name: alarm.name,
                        severity_value: alarm.severity_value,
                    },
                ]
            } else {
                after == before
            }
        }),
        active_alarms(bits, seq![]).len() == 0,
        unknown_bits(bits, seq![]) == bits,
{
    let before = active_alarms(bits, alarms);
    let active = ActiveAlarmView {
        bit: alarm.bit,
        mask: 1u32 << (alarm.bit as u32),
        name: alarm.name,
        severity_value: alarm.severity_value,
    };
    assert(alarms.push(alarm).drop_last() =~= alarms);
    assert(before.push(active) =~= before + seq![active]);
}

} // verus!
