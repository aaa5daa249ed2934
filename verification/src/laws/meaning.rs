//! Laws of texts as values: a label means the value of its choice, and a spelling the text that it
//! spells.

use super::guidance::{lemma_kept, lemma_kept_none};
use crate::csv_output::{value_headers, value_rows};
use crate::decimal::reading::float_of_text;
use crate::model::{
    resolved, same_value, ChoiceView, ConstraintView, ParameterType, ParameterView, SetSemantics,
    ValueView,
};
use crate::table::table_lines;
use crate::text::{digit_value, digits_value, fold, joined, signed_value, unsigned_value};
use crate::value::{
    action_of, allowed, labelled, parsed_text, spelled, spelling_of, values_differ,
    written_value, ValueErrorView,
};
use vstd::prelude::*;

verus! {

/// Whether writing a parameter sets off the action of its one choice, or of the second of two.
pub open spec fn is_action(parameter: ParameterView) -> bool {
    &&& parameter.set_semantics == SetSemantics::Trigger
    &&& resolved(parameter.constraint) matches ConstraintView::Choice { choices } && 1
        <= choices.len() <= 2
}

/// The action of a button has the value of its last choice; no other parameter has an action.
pub proof fn law_action_is_the_last_choice(parameter: ParameterView)
    ensures
        action_of(parameter) is Some <==> is_action(parameter),
        action_of(parameter) matches Some(value) ==> (
        resolved(parameter.constraint) matches ConstraintView::Choice { choices } && value
            == choices[choices.len() - 1].value),
{
}

proof fn lemma_labelled_items(choices: Seq<ChoiceView>, text: Seq<char>)
    ensures
        forall|i: int|
            0 <= i < choices.filter(labelled(text)).len() ==> choices.contains(
                #[trigger] choices.filter(labelled(text))[i],
            ) && fold(choices.filter(labelled(text))[i].display_name) == fold(text),
    decreases choices.len(),
{
    reveal(Seq::filter);
    if choices.len() > 0 {
        let front = choices.drop_last();
        lemma_labelled_items(front, text);
        let all = choices.filter(labelled(text));
        let before = front.filter(labelled(text));
        assert forall|i: int| 0 <= i < all.len() implies choices.contains(#[trigger] all[i])
            && fold(all[i].display_name) == fold(text) by {
            if i < before.len() {
                assert(all[i] == before[i]);
                let k = choose|k: int| 0 <= k < front.len() && front[k] == before[i];
                assert(choices[k] == all[i]);
            } else {
                assert(choices[choices.len() - 1] == all[i]);
            }
        }
    }
}

/// The label of a choice means its value, in whatever case, where no other choice with the label
/// has another value. The label of a button means its action.
pub proof fn law_label_means_its_value(parameter: ParameterView, text: Seq<char>, k: int)
    requires
        resolved(parameter.constraint) matches ConstraintView::Choice { choices } && 0 <= k
            < choices.len() && fold(choices[k].display_name) == fold(text) && (forall|i: int|
            0 <= i < choices.len() && fold((#[trigger] choices[i]).display_name) == fold(text)
                ==> choices[i].value == choices[k].value && same_value(
                choices[i].value,
                choices[k].value,
            )),
    ensures
        ({
            let choices = resolved(parameter.constraint)->Choice_choices;
            parsed_text(parameter, text) == Ok::<_, ValueErrorView>(
                if is_action(parameter) {
                    choices[choices.len() - 1].value
                } else {
                    choices[k].value
                },
            )
        }),
{
    let choices = resolved(parameter.constraint)->Choice_choices;
    let matches = choices.filter(labelled(text));
    lemma_kept(choices, labelled(text), k);
    lemma_labelled_items(choices, text);
    assert forall|i: int| 0 <= i < matches.len() implies (#[trigger] matches[i]).value
        == choices[k].value by {
        let j = choose|j: int| 0 <= j < choices.len() && choices[j] == matches[i];
        assert(choices[j].value == choices[k].value);
    }
    assert(!values_differ(matches)) by {
        assert(matches[0].value == choices[k].value);
    }
}

/// A label of two choices with different values means neither.
pub proof fn law_label_of_different_values_is_ambiguous(
    parameter: ParameterView,
    text: Seq<char>,
    k: int,
    j: int,
)
    requires
        !is_action(parameter),
        resolved(parameter.constraint) matches ConstraintView::Choice { choices } && 0 <= k
            < choices.len() && 0 <= j < choices.len() && fold(choices[k].display_name) == fold(text)
            && fold(choices[j].display_name) == fold(text) && choices[k].value is Int16
            && choices[j].value is Int16 && choices[k].value != choices[j].value,
    ensures
        parsed_text(parameter, text) == Err::<ValueView, _>(ValueErrorView::AmbiguousChoice(text)),
{
    let choices = resolved(parameter.constraint)->Choice_choices;
    let matches = choices.filter(labelled(text));
    lemma_kept(choices, labelled(text), k);
    lemma_kept(choices, labelled(text), j);
    let a = choose|a: int| 0 <= a < matches.len() && matches[a] == choices[k];
    let b = choose|b: int| 0 <= b < matches.len() && matches[b] == choices[j];
    if same_value(matches[a].value, matches[0].value) {
        assert(!same_value(matches[b].value, matches[0].value));
    }
    assert(values_differ(matches));
}

/// A text that is no label means what it writes in the type of the parameter, where the constraint
/// allows that; a button takes no value but that of its action.
pub proof fn law_text_that_is_no_label_is_a_value(
    parameter: ParameterView,
    text: Seq<char>,
    value: ValueView,
)
    requires
        resolved(parameter.constraint) matches ConstraintView::Choice { choices } ==> forall|i: int|
            0 <= i < choices.len() ==> fold((#[trigger] choices[i]).display_name) != fold(text),
    ensures
        parsed_text(parameter, text) == Ok::<_, ValueErrorView>(value) <==> {
            &&& written_value(parameter, text) == Ok::<_, ValueErrorView>(value)
            &&& allowed(parameter.constraint, value) is Ok
            &&& is_action(parameter) ==> (
            resolved(parameter.constraint) matches ConstraintView::Choice { choices } && same_value(
                value,
                choices[choices.len() - 1].value,
            ))
        },
{
    if let ConstraintView::Choice { choices } = resolved(parameter.constraint) {
        lemma_kept_none(choices, labelled(text));
    }
}

/// What a text writes is of the type of the parameter: a decimal number within the bits of the
/// type, a float, or the text itself. Types that cannot be read have no values.
pub proof fn law_text_writes_a_value_of_the_type(parameter: ParameterView, text: Seq<char>)
    requires
        text.len() < 2 || text[0] != '0' || (text[1] != 'x' && text[1] != 'X'),
    ensures
        match parameter.parameter_type {
            ParameterType::Int16 => match signed_value(text) {
                Some(n) if -0x8000 <= n <= 0x7FFF => written_value(parameter, text) == Ok::<
                    _,
                    ValueErrorView,
                >(ValueView::Int16 { value: n as i16 }),
                _ => written_value(parameter, text) is Err,
            },
            ParameterType::Int32 => match signed_value(text) {
                Some(n) if -0x8000_0000 <= n <= 0x7FFF_FFFF => written_value(parameter, text)
                    == Ok::<_, ValueErrorView>(ValueView::Int32 { value: n as i32 }),
                _ => written_value(parameter, text) is Err,
            },
            ParameterType::Float32 => match (float_of_text(text), written_value(parameter, text)) {
                (Some(bits), Ok(ValueView::Float32 { value })) => value.bits == bits,
                (None, Err(_)) => true,
                _ => false,
            },
            ParameterType::String { .. } => match written_value(parameter, text) {
                Ok(value) => value is String && fold(value->String_value) == fold(text),
                Err(error) => error == ValueErrorView::AmbiguousChoice(text),
            },
            _ => written_value(parameter, text) == Err::<ValueView, _>(
                ValueErrorView::UnsupportedType(parameter.parameter_type),
            ),
        },
{
    reveal_strlit("0x");
    reveal_strlit("0X");
    if text.len() >= 2 {
        assert(text.take(2)[0] == text[0] && text.take(2)[1] == text[1]);
    }
    if let ConstraintView::StringChoice { choices, .. } = resolved(parameter.constraint) {
        lemma_spelled_items(choices, text);
    }
}

proof fn lemma_spelled_items(choices: Seq<Seq<char>>, text: Seq<char>)
    ensures
        forall|i: int|
            0 <= i < choices.filter(spelled(text)).len() ==> choices.contains(
                #[trigger] choices.filter(spelled(text))[i],
            ) && fold(choices.filter(spelled(text))[i]) == fold(text),
    decreases choices.len(),
{
    reveal(Seq::filter);
    if choices.len() > 0 {
        let front = choices.drop_last();
        lemma_spelled_items(front, text);
        let all = choices.filter(spelled(text));
        let before = front.filter(spelled(text));
        assert forall|i: int| 0 <= i < all.len() implies choices.contains(#[trigger] all[i])
            && fold(all[i]) == fold(text) by {
            if i < before.len() {
                assert(all[i] == before[i]);
                let k = choose|k: int| 0 <= k < front.len() && front[k] == before[i];
                assert(choices[k] == all[i]);
            } else {
                assert(choices[choices.len() - 1] == all[i]);
            }
        }
    }
}

/// A text that spells a string choice but for the case of letters means that choice, where it
/// spells no other; a text that spells none means itself.
pub proof fn law_spelling_means_the_choice(
    choices: Seq<Seq<char>>,
    arbitrary_values_allowed: bool,
    text: Seq<char>,
    choice: Seq<char>,
)
    ensures
        ({
            let constraint = ConstraintView::StringChoice { choices, arbitrary_values_allowed };
            &&& choices.contains(choice) && fold(choice) == fold(text) && (forall|other: Seq<char>|
                #[trigger] choices.contains(other) && fold(other) == fold(text) ==> other == choice)
                ==> spelling_of(constraint, text) == Ok::<_, ValueErrorView>(choice)
            &&& (forall|other: Seq<char>| #[trigger]
                choices.contains(other) ==> fold(other) != fold(text)) ==> spelling_of(
                constraint,
                text,
            ) == Ok::<_, ValueErrorView>(text)
        }),
{
    let matches = choices.filter(spelled(text));
    lemma_spelled_items(choices, text);
    if choices.contains(choice) && fold(choice) == fold(text) {
        let k = choose|k: int| 0 <= k < choices.len() && choices[k] == choice;
        lemma_kept(choices, spelled(text), k);
        if forall|other: Seq<char>| #[trigger]
            choices.contains(other) && fold(other) == fold(text) ==> other == choice {
            assert forall|i: int| 0 <= i < matches.len() implies #[trigger] matches[i]
                == matches[0] by {
                assert(choices.contains(matches[i]));
                assert(choices.contains(matches[0]));
            }
            assert(choices.contains(matches[0]));
        }
    }
    if forall|other: Seq<char>| #[trigger] choices.contains(other) ==> fold(other) != fold(text) {
        assert forall|i: int| 0 <= i < choices.len() implies !spelled(text)(
            #[trigger] choices[i],
        ) by {
            assert(choices.contains(choices[i]));
        }
        lemma_kept_none(choices, spelled(text));
    }
}

/// A hexadecimal number writes the bits of an integer, as many as its type has.
pub proof fn law_hexadecimal_writes_bits(parameter: ParameterView, text: Seq<char>, upper: bool)
    requires
        text.len() >= 2,
        text[0] == '0',
        text[1] == (if upper {
            'X'
        } else {
            'x'
        }),
    ensures
        ({
            let bits = unsigned_value(text.skip(2), 16);
            &&& parameter.parameter_type == ParameterType::Int16 ==> match (
                bits,
                written_value(parameter, text),
            ) {
                (Some(n), Ok(ValueView::Int16 { value })) => n <= 0xFFFF && (value == n || value
                    == n - 0x1_0000),
                (Some(n), Err(_)) => n > 0xFFFF,
                (None, Err(_)) => true,
                _ => false,
            }
            &&& parameter.parameter_type == ParameterType::Int32 ==> match (
                bits,
                written_value(parameter, text),
            ) {
                (Some(n), Ok(ValueView::Int32 { value })) => n <= 0xFFFF_FFFF && (value == n
                    || value == n - 0x1_0000_0000),
                (Some(n), Err(_)) => n > 0xFFFF_FFFF,
                (None, Err(_)) => true,
                _ => false,
            }
        }),
{
    reveal_strlit("0x");
    reveal_strlit("0X");
    assert("0x"@ =~= seq!['0', 'x']);
    assert("0X"@ =~= seq!['0', 'X']);
    assert(text.take(2) =~= seq!['0', text[1]]);
    assert(seq!['0', 'x'][1] != seq!['0', 'X'][1]);
}

/// The digits of a number count what they stand for, letters in either case from ten on, and
/// each digit that follows multiplies by the radix what stands before it.
pub proof fn law_digits_count(text: Seq<char>, c: char, radix: nat)
    requires
        2 <= radix <= 16,
    ensures
        '0' <= c <= '9' && c as u32 - 48 < radix ==> digit_value(c, radix) == Some(
            (c as u32 - '0' as u32) as nat,
        ),
        'a' <= c <= 'f' && radix == 16 ==> digit_value(c, radix) == Some(
            (c as u32 - 'a' as u32 + 10) as nat,
        ),
        'A' <= c <= 'F' && radix == 16 ==> digit_value(c, radix) == Some(
            (c as u32 - 'A' as u32 + 10) as nat,
        ),
        !('0' <= c <= '9') && !('a' <= c <= 'f') && !('A' <= c <= 'F') ==> digit_value(
            c,
            radix,
        ) is None,
        digits_value(Seq::<char>::empty(), radix) == Some(0nat),
        digits_value(text.push(c), radix) == (match (
            digits_value(text, radix),
            digit_value(c, radix),
        ) {
            (Some(n), Some(d)) => Some((radix * n + d) as nat),
            _ => None,
        }),
{
    assert(text.push(c).drop_last() =~= text);
    if let Some(n) = digits_value(text, radix) {
        assert(n * radix == radix * n) by (nonlinear_arith);
    }
}

/// A number may have a sign: a plus changes nothing, a minus makes it negative. A sign alone is no
/// number, and neither is nothing.
pub proof fn law_signs(text: Seq<char>)
    requires
        text.len() > 0,
        text[0] != '+',
        text[0] != '-',
    ensures
        unsigned_value(text, 10) == digits_value(text, 10),
        unsigned_value(seq!['+'] + text, 10) == digits_value(text, 10),
        signed_value(text) == signed_value(seq!['+'] + text),
        match digits_value(text, 10) {
            Some(n) => signed_value(text) == Some(n as int) && signed_value(seq!['-'] + text)
                == Some(-(n as int)),
            None => signed_value(text) is None && signed_value(seq!['-'] + text) is None,
        },
        unsigned_value(seq![], 10) is None,
        unsigned_value(seq!['+'], 10) is None,
        signed_value(seq!['-']) is None,
{
    assert((seq!['+'] + text).drop_first() =~= text);
    assert((seq!['-'] + text).drop_first() =~= text);
    assert(seq!['+'].drop_first() =~= seq![]);
}

/// A text that is refused as a value is told with the table of the values that the parameter can
/// have, where they can be listed.
pub proof fn law_refused_text_is_told_with_the_values(parameter: ParameterView, text: Seq<char>)
    ensures
        parsed_text(parameter, text) matches Err(error) ==> match error {
            ValueErrorView::InvalidParameterValue { value, possible_values } => value == text
                && value_rows(parameter) is Some && possible_values == joined(
                table_lines(value_headers(parameter), value_rows(parameter)->0),
                seq!['\n'],
            ),
            ValueErrorView::InvalidText(told) => told == text && value_rows(parameter) is None,
            ValueErrorView::AmbiguousChoice(told) => told == text,
            ValueErrorView::UnsupportedType(told) => told == parameter.parameter_type,
            ValueErrorView::UnsupportedConstraint => true,
            _ => false,
        },
{
    reveal_strlit("\n");
    assert("\n"@ =~= seq!['\n']);
    if let Ok(value) = written_value(parameter, text) {
        lemma_refusals(parameter.constraint, value);
    }
}

proof fn lemma_refusals(constraint: ConstraintView, value: ValueView)
    ensures
        allowed(constraint, value) matches Err(error) ==> error is ConstraintViolation
            || error is UnsupportedConstraint,
    decreases constraint,
{
    if let ConstraintView::External { resolved, .. } = constraint {
        lemma_refusals(*resolved, value);
    }
}

} // verus!
