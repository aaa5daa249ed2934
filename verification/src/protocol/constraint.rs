//! The constraints that a device puts on its parameters.

use super::error::{ProtocolError, ProtocolErrorView};
use super::items::{
    counted_string, counted_strings, items, lemma_items_stop, parse_counted_string,
    parse_counted_strings,
};
use super::response::invalid;
use crate::bytes::{be16, be32, read16, read32, signed16, signed32, to_signed16, to_signed32};
use crate::model::{
    value_number, AlarmDefinition, AlarmView, Choice, ChoiceView, Constraint, ConstraintView,
    ParameterType, ParameterValue, ValueView,
};
use crate::number::{
    integer_number, is_less, less, number_of_integer, Float32, Number, Real,
};
use crate::views::{option_view, result_view, views};
use vstd::prelude::*;

verus! {

/// Constraint data that does not have the form it should.
pub open spec fn malformed<T>(text: Seq<char>) -> Result<T, ProtocolErrorView> {
    Err(ProtocolErrorView::InvalidConstraint(text))
}

/// How many bytes a number of the type, or of its elements, takes.
pub open spec fn width_of(parameter_type: ParameterType) -> Option<nat> {
    match parameter_type {
        ParameterType::Int16 => Some(2),
        ParameterType::Int16Array { .. } => Some(2),
        ParameterType::Int32 => Some(4),
        ParameterType::Int32Array { .. } => Some(4),
        ParameterType::Float32 => Some(4),
        ParameterType::Float32Array { .. } => Some(4),
        _ => None,
    }
}

/// The number of the type that stands at `at`.
pub open spec fn number_at(parameter_type: ParameterType, data: Seq<u8>, at: int) -> ValueView {
    match parameter_type {
        ParameterType::Int16 => ValueView::Int16 { value: signed16(be16(data, at)) },
        ParameterType::Int16Array { .. } => ValueView::Int16 { value: signed16(be16(data, at)) },
        ParameterType::Int32 => ValueView::Int32 { value: signed32(be32(data, at)) },
        ParameterType::Int32Array { .. } => ValueView::Int32 { value: signed32(be32(data, at)) },
        _ => ValueView::Float32 { value: Float32 { bits: be32(data, at) } },
    }
}

fn numeric_width(parameter_type: &ParameterType) -> (r: Result<usize, ProtocolError>)
    ensures
        match r {
            Ok(width) => width_of(*parameter_type) == Some(width as nat),
            Err(error) => width_of(*parameter_type) is None && error@
                == ProtocolErrorView::InvalidConstraint(
                "numeric constraint is attached to a non-numeric parameter"@,
            ),
        },
{
    match parameter_type {
        ParameterType::Int16 | ParameterType::Int16Array { .. } => Ok(2),
        ParameterType::Int32
        | ParameterType::Float32
        | ParameterType::Int32Array { .. }
        | ParameterType::Float32Array { .. } => Ok(4),
        _ => Err(
            ProtocolError::InvalidConstraint(
                "numeric constraint is attached to a non-numeric parameter",
            ),
        ),
    }
}

fn parse_number(parameter_type: &ParameterType, data: &[u8], at: usize) -> (r: ParameterValue)
    requires
        width_of(*parameter_type) is Some,
        at + width_of(*parameter_type)->0 <= data@.len(),
    ensures
        r@ == number_at(*parameter_type, data@, at as int),
{
    match parameter_type {
        ParameterType::Int16 | ParameterType::Int16Array { .. } => ParameterValue::Int16 {
            value: to_signed16(read16(data, at)),
        },
        ParameterType::Int32 | ParameterType::Int32Array { .. } => ParameterValue::Int32 {
            value: to_signed32(read32(data, at)),
        },
        _ => ParameterValue::Float32 { value: Float32 { bits: read32(data, at) } },
    }
}

/// Whether a range can be used: its ends are finite and in order, and a step is finite and
/// positive.
pub open spec fn range_valid(
    minimum: ValueView,
    maximum: ValueView,
    step: Option<ValueView>,
) -> bool {
    &&& value_number(minimum) matches Some(Real::Finite(_))
    &&& value_number(maximum) matches Some(Real::Finite(_))
    &&& !less(value_number(maximum)->0, value_number(minimum)->0)
    &&& step matches Some(step) ==> {
        &&& value_number(step) matches Some(Real::Finite(_))
        &&& less(integer_number(0), value_number(step)->0)
    }
}

/// A range: minimum and maximum, then, where there is a display scale, its ends, then the step
/// where there is one.
pub open spec fn parsed_range(
    data: Seq<u8>,
    parameter_type: ParameterType,
    has_step: bool,
) -> Result<ConstraintView, ProtocolErrorView> {
    match width_of(parameter_type) {
        None => malformed("numeric constraint is attached to a non-numeric parameter"@),
        Some(width) => {
            let base: nat = if has_step {
                3
            } else {
                2
            };
            let scaled = data.len() == width * (base + 2);
            let number = |index: int| number_at(parameter_type, data, index * width);
            let step = if has_step {
                Some(number(base - 1 + if scaled { 2int } else { 0int }))
            } else {
                None
            };
            if data.len() != width * base && !scaled {
                malformed("range has an invalid length"@)
            } else if !range_valid(number(0), number(1), step) {
                malformed("range values are invalid"@)
            } else {
                Ok(
                    ConstraintView::Range {
                        minimum: number(0),
                        maximum: number(1),
                        display_minimum: if scaled {
                            Some(number(2))
                        } else {
                            None
                        },
                        display_maximum: if scaled {
                            Some(number(3))
                        } else {
                            None
                        },
                        step,
                    },
                )
            }
        },
    }
}

fn is_valid_range(
    minimum: &ParameterValue,
    maximum: &ParameterValue,
    step: &Option<ParameterValue>,
) -> (r: bool)
    ensures
        r == range_valid(minimum@, maximum@, option_view(*step)),
{
    let (low, high) = match (minimum.number(), maximum.number()) {
        (Some(low), Some(high)) => (low, high),
        _ => return false,
    };
    match (low, high) {
        (Number::Finite(_), Number::Finite(_)) => {},
        _ => return false,
    }
    if is_less(high, low) {
        return false;
    }
    match step {
        None => true,
        Some(step) => match step.number() {
            Some(number) => match number {
                Number::Finite(_) => is_less(number_of_integer(0), number),
                _ => false,
            },
            None => false,
        },
    }
}

fn parse_range(data: &[u8], parameter_type: &ParameterType, has_step: bool) -> (r: Result<
    Constraint,
    ProtocolError,
>)
    ensures
        result_view(r) == parsed_range(data@, *parameter_type, has_step),
{
    let width: usize = match numeric_width(parameter_type) {
        Ok(width) => width,
        Err(error) => return Err(error),
    };
    let base: usize = if has_step {
        3
    } else {
        2
    };
    let scaled = data.len() == width * (base + 2);
    if data.len() != width * base && !scaled {
        return Err(ProtocolError::InvalidConstraint("range has an invalid length"));
    }
    let minimum = parse_number(parameter_type, data, 0);
    let maximum = parse_number(parameter_type, data, width);
    let display_minimum = if scaled {
        Some(parse_number(parameter_type, data, 2 * width))
    } else {
        None
    };
    let display_maximum = if scaled {
        Some(parse_number(parameter_type, data, 3 * width))
    } else {
        None
    };
    let step = if has_step {
        let index: usize = if scaled {
            4
        } else {
            2
        };
        Some(parse_number(parameter_type, data, index * width))
    } else {
        None
    };
    if !is_valid_range(&minimum, &maximum, &step) {
        return Err(ProtocolError::InvalidConstraint("range values are invalid"));
    }
    Ok(Constraint::Range { minimum, maximum, display_minimum, display_maximum, step })
}

/// The choice at an offset: its value, and its label behind its length.
pub open spec fn choice_item(data: Seq<u8>, parameter_type: ParameterType) -> spec_fn(
    int,
) -> Result<(ChoiceView, int), ProtocolErrorView> {
    |at: int|
        {
            let end = at + width_of(parameter_type)->0;
            if end > data.len() {
                malformed("choice value is truncated"@)
            } else {
                match counted_string(data, end, "choice name"@) {
                    Ok((display_name, end)) => Ok(
                        (
                            ChoiceView { value: number_at(parameter_type, data, at), display_name },
                            end,
                        ),
                    ),
                    Err(error) => Err(error),
                }
            }
        }
}

/// Choices: how many, in 16 bits where `extended` is set and in 8 otherwise, and the choices.
pub open spec fn parsed_choices(
    data: Seq<u8>,
    parameter_type: ParameterType,
    extended: bool,
) -> Result<ConstraintView, ProtocolErrorView> {
    if width_of(parameter_type) is None {
        malformed("numeric constraint is attached to a non-numeric parameter"@)
    } else if extended && data.len() < 2 {
        malformed("extended choice is missing its count"@)
    } else if !extended && data.len() < 1 {
        malformed("choice is missing its count"@)
    } else {
        let count = if extended {
            be16(data, 0) as nat
        } else {
            data[0] as nat
        };
        let start: int = if extended {
            2
        } else {
            1
        };
        match items(choice_item(data, parameter_type), start, count) {
            Err(error) => Err(error),
            Ok((choices, end)) => if end != data.len() {
                malformed("choice has trailing bytes"@)
            } else {
                Ok(ConstraintView::Choice { choices })
            },
        }
    }
}

#[verifier::loop_isolation(false)]
fn parse_choices(data: &[u8], parameter_type: &ParameterType, extended: bool) -> (r: Result<
    Constraint,
    ProtocolError,
>)
    ensures
        result_view(r) == parsed_choices(data@, *parameter_type, extended),
{
    let width: usize = match numeric_width(parameter_type) {
        Ok(width) => width,
        Err(error) => return Err(error),
    };
    let count: usize;
    let start: usize;
    if extended {
        if data.len() < 2 {
            return Err(ProtocolError::InvalidConstraint("extended choice is missing its count"));
        }
        count = read16(data, 0) as usize;
        start = 2;
    } else {
        if data.len() < 1 {
            return Err(ProtocolError::InvalidConstraint("choice is missing its count"));
        }
        count = data[0] as usize;
        start = 1;
    }
    let mut choices: Vec<Choice> = Vec::new();
    let mut offset: usize = start;
    let mut i: usize = 0;
    let ghost item = choice_item(data@, *parameter_type);
    assert(views(choices@) =~= seq![]);
    while i < count
        invariant
            i <= count,
            offset <= data@.len(),
            width_of(*parameter_type) == Some(width as nat),
            item == choice_item(data@, *parameter_type),
            items(item, start as int, i as nat) == Ok::<_, ProtocolErrorView>(
                (views(choices@), offset as int),
            ),
        decreases count - i,
    {
        let mut failed: Option<ProtocolError> = None;
        if width > data.len() - offset {
            failed = Some(ProtocolError::InvalidConstraint("choice value is truncated"));
        } else {
            let value = parse_number(parameter_type, data, offset);
            match parse_counted_string(data, offset + width, "choice name") {
                Ok((display_name, next)) => {
                    let ghost before = choices@;
                    let choice = Choice { value, display_name };
                    let ghost view = choice@;
                    choices.push(choice);
                    offset = next;
                    assert(views(choices@) =~= views(before).push(view));
                },
                Err(error) => {
                    failed = Some(error);
                },
            }
        }
        if let Some(error) = failed {
            proof {
                assert(items(item, start as int, (i + 1) as nat) == Err::<
                    (Seq<ChoiceView>, int),
                    _,
                >(error@));
                lemma_items_stop(item, start as int, (i + 1) as nat, count as nat);
            }
            return Err(error);
        }
        i += 1;
    }
    if offset != data.len() {
        return Err(ProtocolError::InvalidConstraint("choice has trailing bytes"));
    }
    Ok(Constraint::Choice { choices })
}

/// Choices of a text: how many, in 16 bits, and each behind its length.
pub open spec fn parsed_string_choices(data: Seq<u8>) -> Result<
    ConstraintView,
    ProtocolErrorView,
> {
    if data.len() < 2 {
        malformed("string choice is missing its count"@)
    } else {
        match counted_strings(data, 2, be16(data, 0) as nat, "string choice"@) {
            Err(error) => Err(error),
            Ok((choices, end)) => if end != data.len() {
                malformed("string choice has trailing bytes"@)
            } else {
                Ok(ConstraintView::StringChoice { choices, arbitrary_values_allowed: true })
            },
        }
    }
}

fn parse_string_choices(data: &[u8]) -> (r: Result<Constraint, ProtocolError>)
    ensures
        result_view(r) == parsed_string_choices(data@),
{
    if data.len() < 2 {
        return Err(ProtocolError::InvalidConstraint("string choice is missing its count"));
    }
    match parse_counted_strings(data, 2, read16(data, 0) as usize, "string choice") {
        Err(error) => Err(error),
        Ok((choices, end)) => if end != data.len() {
            Err(ProtocolError::InvalidConstraint("string choice has trailing bytes"))
        } else {
            Ok(Constraint::StringChoice { choices, arbitrary_values_allowed: true })
        },
    }
}

/// How many bits an integer of the type, or of its elements, has.
pub open spec fn bit_width_of(parameter_type: ParameterType) -> Option<u8> {
    match parameter_type {
        ParameterType::Int16 => Some(16),
        ParameterType::Int16Array { .. } => Some(16),
        ParameterType::Int32 => Some(32),
        ParameterType::Int32Array { .. } => Some(32),
        _ => None,
    }
}

/// The alarm at an offset: its bit, its severity, and its name behind its length.
pub open spec fn alarm_item(data: Seq<u8>, bit_width: u8) -> spec_fn(int) -> Result<
    (AlarmView, int),
    ProtocolErrorView,
> {
    |at: int|
        {
            if at + 2 > data.len() {
                malformed("alarm entry is truncated"@)
            } else if data[at] >= bit_width {
                malformed("alarm bit exceeds the parameter width"@)
            } else {
                match counted_string(data, at + 2, "alarm name"@) {
                    Ok((name, end)) => Ok(
                        (AlarmView { bit: data[at], name, severity_value: data[at + 1] }, end),
                    ),
                    Err(error) => Err(error),
                }
            }
        }
}

/// Alarms: how many, and the alarms.
pub open spec fn parsed_alarms(data: Seq<u8>, parameter_type: ParameterType) -> Result<
    ConstraintView,
    ProtocolErrorView,
> {
    match bit_width_of(parameter_type) {
        None => malformed("alarm table is attached to a non-integer parameter"@),
        Some(bit_width) => if data.len() == 0 {
            malformed("alarm table is missing its count"@)
        } else {
            match items(alarm_item(data, bit_width), 1, data[0] as nat) {
                Err(error) => Err(error),
                Ok((alarms, end)) => if end != data.len() {
                    malformed("alarm table has trailing bytes"@)
                } else {
                    Ok(ConstraintView::AlarmTable { alarms })
                },
            }
        },
    }
}

#[verifier::loop_isolation(false)]
fn parse_alarms(data: &[u8], parameter_type: &ParameterType) -> (r: Result<
    Constraint,
    ProtocolError,
>)
    ensures
        result_view(r) == parsed_alarms(data@, *parameter_type),
{
    let bit_width: u8 = match parameter_type {
        ParameterType::Int16 | ParameterType::Int16Array { .. } => 16,
        ParameterType::Int32 | ParameterType::Int32Array { .. } => 32,
        _ => return Err(
            ProtocolError::InvalidConstraint("alarm table is attached to a non-integer parameter"),
        ),
    };
    if data.len() == 0 {
        return Err(ProtocolError::InvalidConstraint("alarm table is missing its count"));
    }
    let count: u8 = data[0];
    let mut alarms: Vec<AlarmDefinition> = Vec::new();
    let mut offset: usize = 1;
    let mut i: u8 = 0;
    let ghost item = alarm_item(data@, bit_width);
    assert(views(alarms@) =~= seq![]);
    while i < count
        invariant
            i <= count,
            offset <= data@.len(),
            item == alarm_item(data@, bit_width),
            items(item, 1, i as nat) == Ok::<_, ProtocolErrorView>(
                (views(alarms@), offset as int),
            ),
        decreases count - i,
    {
        let mut failed: Option<ProtocolError> = None;
        if data.len() - offset < 2 {
            failed = Some(ProtocolError::InvalidConstraint("alarm entry is truncated"));
        } else if data[offset] >= bit_width {
            failed = Some(ProtocolError::InvalidConstraint("alarm bit exceeds the parameter width"));
        } else {
            match parse_counted_string(data, offset + 2, "alarm name") {
                Ok((name, next)) => {
                    let ghost before = alarms@;
                    let alarm = AlarmDefinition {
                        bit: data[offset],
                        name,
                        severity_value: data[offset + 1],
                    };
                    let ghost view = alarm@;
                    alarms.push(alarm);
                    offset = next;
                    assert(views(alarms@) =~= views(before).push(view));
                },
                Err(error) => {
                    failed = Some(error);
                },
            }
        }
        if let Some(error) = failed {
            proof {
                assert(items(item, 1, (i + 1) as nat) == Err::<(Seq<AlarmView>, int), _>(error@));
                lemma_items_stop(item, 1, (i + 1) as nat, count as nat);
            }
            return Err(error);
        }
        i += 1;
    }
    if offset != data.len() {
        return Err(ProtocolError::InvalidConstraint("alarm table has trailing bytes"));
    }
    Ok(Constraint::AlarmTable { alarms })
}

/// The constraint of a parameter, by the number of its form.
pub open spec fn parsed_constraint(
    type_id: u8,
    data: Seq<u8>,
    parameter_type: ParameterType,
) -> Result<ConstraintView, ProtocolErrorView> {
    if type_id == 0 {
        if data.len() == 0 {
            Ok(ConstraintView::Unconstrained)
        } else {
            malformed("null constraint has data"@)
        }
    } else if type_id == 1 {
        parsed_range(data, parameter_type, false)
    } else if type_id == 2 {
        parsed_choices(data, parameter_type, false)
    } else if type_id == 3 {
        parsed_choices(data, parameter_type, true)
    } else if type_id == 4 {
        parsed_string_choices(data)
    } else if type_id == 5 {
        parsed_range(data, parameter_type, true)
    } else if type_id == 10 {
        parsed_alarms(data, parameter_type)
    } else if type_id == 11 {
        if data.len() != 2 {
            malformed("external constraint must contain a 16-bit OID"@)
        } else {
            Ok(
                ConstraintView::External {
                    object_id: be16(data, 0),
                    resolved: Box::new(ConstraintView::Unconstrained),
                },
            )
        }
    } else {
        Ok(ConstraintView::Unsupported { type_id })
    }
}

/// The constraint of a parameter, by the number of its form.
pub fn parse_constraint(type_id: u8, data: &[u8], parameter_type: &ParameterType) -> (r: Result<
    Constraint,
    ProtocolError,
>)
    ensures
        result_view(r) == parsed_constraint(type_id, data@, *parameter_type),
{
    match type_id {
        0 => if data.len() == 0 {
            Ok(Constraint::Unconstrained)
        } else {
            Err(ProtocolError::InvalidConstraint("null constraint has data"))
        },
        1 => parse_range(data, parameter_type, false),
        2 => parse_choices(data, parameter_type, false),
        3 => parse_choices(data, parameter_type, true),
        4 => parse_string_choices(data),
        5 => parse_range(data, parameter_type, true),
        10 => parse_alarms(data, parameter_type),
        11 => if data.len() != 2 {
            Err(ProtocolError::InvalidConstraint("external constraint must contain a 16-bit OID"))
        } else {
            let resolved = Constraint::Unconstrained;
            assert(resolved@ == ConstraintView::Unconstrained);
            Ok(Constraint::External { object_id: read16(data, 0), resolved: Box::new(resolved) })
        },
        _ => Ok(Constraint::Unsupported { type_id }),
    }
}

/// The constraint in an external object: the kind of the object, the number of the constraint's
/// form, a byte that is passed over, and its data. An object of another kind constrains nothing.
pub open spec fn parsed_external(bytes: Seq<u8>, parameter_type: ParameterType) -> Result<
    ConstraintView,
    ProtocolErrorView,
> {
    if bytes.len() < 2 {
        invalid("external object type is truncated"@)
    } else if be16(bytes, 0) != 1 {
        Ok(ConstraintView::Unconstrained)
    } else if bytes.len() < 4 {
        invalid("external constraint header is truncated"@)
    } else {
        match parsed_constraint(bytes[2], bytes.skip(4), parameter_type) {
            Ok(ConstraintView::External { .. }) => malformed(
                "external constraint points to another external constraint"@,
            ),
            constraint => constraint,
        }
    }
}

/// The constraint in an external object.
pub fn external_constraint(bytes: &[u8], parameter_type: &ParameterType) -> (r: Result<
    Constraint,
    ProtocolError,
>)
    ensures
        result_view(r) == parsed_external(bytes@, *parameter_type),
{
    if bytes.len() < 2 {
        return Err(ProtocolError::InvalidResponse("external object type is truncated"));
    }
    if read16(bytes, 0) != 1 {
        return Ok(Constraint::Unconstrained);
    }
    if bytes.len() < 4 {
        return Err(ProtocolError::InvalidResponse("external constraint header is truncated"));
    }
    let data = &bytes[4..bytes.len()];
    assert(data@ =~= bytes@.skip(4));
    match parse_constraint(bytes[2], data, parameter_type) {
        Ok(Constraint::External { .. }) => Err(
            ProtocolError::InvalidConstraint(
                "external constraint points to another external constraint",
            ),
        ),
        constraint => constraint,
    }
}

} // verus!
