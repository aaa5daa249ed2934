//! Values of parameters: to and from bytes, out of text, and whether a constraint allows them.

use crate::bytes::{
    be16, be16_bytes, be32, be32_bytes, contains_byte, decode_text, push16, push32, push_bytes,
    read16, read32, signed16, signed32, to_signed16, to_signed32, to_unsigned16, to_unsigned32,
    unsigned16, unsigned32, utf8_text, Utf8Failure,
};
use crate::csv_output::{possible_values_table, value_table};
use crate::decimal::reading::{float_of_text, read_float};
use crate::model::{
    hex_digits, label_eq, resolved, same_value, strip_hex, type_accepts, value_number, Choice,
    ChoiceView, Constraint, ConstraintView, Parameter, ParameterType, ParameterValue,
    ParameterView, SetSemantics, ValueView,
};
use crate::number::{
    float_number, is_less, is_off_step, less, number_of_float, off_step, Float32, Number, Real,
};
use crate::protocol::error::utf8_failure_text;
use crate::text::{
    concat, contains_text, decimal, decimal_text, fold, parse_signed, parse_unsigned, same,
    signed_value, unsigned_value, with_number,
};
use crate::views::{lemma_filter_next, lemma_filter_none, option_view, result_view, views};
use vstd::prelude::*;
use vstd::string::*;
use vstd::utf8::*;

verus! {

/// What is wrong with a value.
#[derive(Debug)]
pub enum ValueError {
    InvalidLength { expected: usize, actual: usize },
    UnterminatedString,
    EmbeddedNul,
    StringTooLong { maximum: usize, actual: usize },
    Utf8(Utf8Failure),
    UnsupportedType(ParameterType),
    TypeMismatch,
    InvalidText(String),
    InvalidParameterValue { value: String, possible_values: String },
    NonFiniteFloat,
    ConstraintViolation,
    AmbiguousChoice(String),
    UnsupportedConstraint,
}

/// The value of a `ValueError`.
pub enum ValueErrorView {
    InvalidLength { expected: usize, actual: usize },
    UnterminatedString,
    EmbeddedNul,
    StringTooLong { maximum: usize, actual: usize },
    Utf8(Utf8Failure),
    UnsupportedType(ParameterType),
    TypeMismatch,
    InvalidText(Seq<char>),
    InvalidParameterValue { value: Seq<char>, possible_values: Seq<char> },
    NonFiniteFloat,
    ConstraintViolation,
    AmbiguousChoice(Seq<char>),
    UnsupportedConstraint,
}

impl View for ValueError {
    type V = ValueErrorView;

    open spec fn view(&self) -> ValueErrorView {
        match *self {
            ValueError::InvalidLength { expected, actual } => ValueErrorView::InvalidLength {
                expected,
                actual,
            },
            ValueError::UnterminatedString => ValueErrorView::UnterminatedString,
            ValueError::EmbeddedNul => ValueErrorView::EmbeddedNul,
            ValueError::StringTooLong { maximum, actual } => ValueErrorView::StringTooLong {
                maximum,
                actual,
            },
            ValueError::Utf8(failure) => ValueErrorView::Utf8(failure),
            ValueError::UnsupportedType(parameter_type) => ValueErrorView::UnsupportedType(
                parameter_type,
            ),
            ValueError::TypeMismatch => ValueErrorView::TypeMismatch,
            ValueError::InvalidText(text) => ValueErrorView::InvalidText(text@),
            ValueError::InvalidParameterValue { value, possible_values } =>
                ValueErrorView::InvalidParameterValue {
                value: value@,
                possible_values: possible_values@,
            },
            ValueError::NonFiniteFloat => ValueErrorView::NonFiniteFloat,
            ValueError::ConstraintViolation => ValueErrorView::ConstraintViolation,
            ValueError::AmbiguousChoice(text) => ValueErrorView::AmbiguousChoice(text@),
            ValueError::UnsupportedConstraint => ValueErrorView::UnsupportedConstraint,
        }
    }
}

/// An optional number the way a type is shown.
pub open spec fn optional_text(n: Option<nat>) -> Seq<char> {
    match n {
        Some(n) => "Some("@ + decimal(n) + ")"@,
        None => "None"@,
    }
}

pub open spec fn length_text(length: Option<u16>) -> Seq<char> {
    optional_text(
        match length {
            Some(n) => Some(n as nat),
            None => None,
        },
    )
}

pub open spec fn limit_text(limit: Option<u8>) -> Seq<char> {
    optional_text(
        match limit {
            Some(n) => Some(n as nat),
            None => None,
        },
    )
}

/// A type with its fields.
pub open spec fn full_type_text(parameter_type: ParameterType) -> Seq<char> {
    match parameter_type {
        ParameterType::Int16 => "Int16"@,
        ParameterType::Int32 => "Int32"@,
        ParameterType::Float32 => "Float32"@,
        ParameterType::String { max_bytes } => "String { max_bytes: "@ + limit_text(max_bytes)
            + " }"@,
        ParameterType::Int16Array { length } => "Int16Array { length: "@ + length_text(length)
            + " }"@,
        ParameterType::Int32Array { length } => "Int32Array { length: "@ + length_text(length)
            + " }"@,
        ParameterType::Float32Array { length } => "Float32Array { length: "@ + length_text(length)
            + " }"@,
        ParameterType::StringArray { length, max_element_bytes } => "StringArray { length: "@
            + length_text(length) + ", max_element_bytes: "@ + limit_text(max_element_bytes)
            + " }"@,
        ParameterType::Binary => "Binary"@,
        ParameterType::Unsupported { type_id } => "Unsupported { type_id: "@ + decimal(
            type_id as nat,
        ) + " }"@,
    }
}

fn length_string(length: Option<u16>) -> (r: String)
    ensures
        r@ == length_text(length),
{
    match length {
        Some(n) => with_number("Some(", n as u64, ")"),
        None => "None".to_owned(),
    }
}

fn limit_string(limit: Option<u8>) -> (r: String)
    ensures
        r@ == limit_text(limit),
{
    match limit {
        Some(n) => with_number("Some(", n as u64, ")"),
        None => "None".to_owned(),
    }
}

fn full_type_name(parameter_type: ParameterType) -> (r: String)
    ensures
        r@ == full_type_text(parameter_type),
{
    match parameter_type {
        ParameterType::Int16 => "Int16".to_owned(),
        ParameterType::Int32 => "Int32".to_owned(),
        ParameterType::Float32 => "Float32".to_owned(),
        ParameterType::String { max_bytes } => concat(
            &concat("String { max_bytes: ", &limit_string(max_bytes)),
            " }",
        ),
        ParameterType::Int16Array { length } => concat(
            &concat("Int16Array { length: ", &length_string(length)),
            " }",
        ),
        ParameterType::Int32Array { length } => concat(
            &concat("Int32Array { length: ", &length_string(length)),
            " }",
        ),
        ParameterType::Float32Array { length } => concat(
            &concat("Float32Array { length: ", &length_string(length)),
            " }",
        ),
        ParameterType::StringArray { length, max_element_bytes } => {
            let start = concat("StringArray { length: ", &length_string(length));
            let middle = concat(&start, ", max_element_bytes: ");
            concat(&concat(&middle, &limit_string(max_element_bytes)), " }")
        },
        ParameterType::Binary => "Binary".to_owned(),
        ParameterType::Unsupported { type_id } => with_number(
            "Unsupported { type_id: ",
            type_id as u64,
            " }",
        ),
    }
}

/// What is said of an error.
pub open spec fn value_error_text(error: ValueErrorView) -> Seq<char> {
    match error {
        ValueErrorView::InvalidLength { expected, actual } => "expected "@ + decimal(
            expected as nat,
        ) + " value bytes, received "@ + decimal(actual as nat),
        ValueErrorView::UnterminatedString => "string value is not NUL-terminated"@,
        ValueErrorView::EmbeddedNul => "string value contains an embedded NUL"@,
        ValueErrorView::StringTooLong { maximum, actual } => "string is too long: maximum "@
            + decimal(maximum as nat) + " UTF-8 bytes, received "@ + decimal(actual as nat),
        ValueErrorView::Utf8(failure) => "value is not valid UTF-8: "@ + utf8_failure_text(failure),
        ValueErrorView::UnsupportedType(parameter_type) =>
            "parameter type is not supported at runtime: "@ + full_type_text(parameter_type),
        ValueErrorView::TypeMismatch => "value does not match parameter type"@,
        ValueErrorView::InvalidText(text) => "invalid value: "@ + text,
        ValueErrorView::InvalidParameterValue { value, possible_values } => "invalid value: "@
            + value + "\npossible values:\n"@ + possible_values,
        ValueErrorView::NonFiniteFloat => "non-finite float writes are not supported"@,
        ValueErrorView::ConstraintViolation => "value violates the parameter constraint"@,
        ValueErrorView::AmbiguousChoice(text) => "choice label is ambiguous: "@ + text,
        ValueErrorView::UnsupportedConstraint =>
            "constraint type is unsupported; safe writes are unavailable"@,
    }
}

impl ValueError {
    /// What is said of the error.
    pub fn to_string(&self) -> (r: String)
        ensures
            r@ == value_error_text(self@),
    {
        match self {
            Self::InvalidLength { expected, actual } => concat(
                &with_number("expected ", *expected as u64, " value bytes, received "),
                &decimal_text(*actual as u64),
            ),
            Self::UnterminatedString => "string value is not NUL-terminated".to_owned(),
            Self::EmbeddedNul => "string value contains an embedded NUL".to_owned(),
            Self::StringTooLong { maximum, actual } => concat(
                &with_number(
                    "string is too long: maximum ",
                    *maximum as u64,
                    " UTF-8 bytes, received ",
                ),
                &decimal_text(*actual as u64),
            ),
            Self::Utf8(failure) => concat("value is not valid UTF-8: ", &failure.to_string()),
            Self::UnsupportedType(parameter_type) => concat(
                "parameter type is not supported at runtime: ",
                &full_type_name(*parameter_type),
            ),
            Self::TypeMismatch => "value does not match parameter type".to_owned(),
            Self::InvalidText(text) => concat("invalid value: ", text),
            Self::InvalidParameterValue { value, possible_values } => concat(
                &concat(&concat("invalid value: ", value), "\npossible values:\n"),
                possible_values,
            ),
            Self::NonFiniteFloat => "non-finite float writes are not supported".to_owned(),
            Self::ConstraintViolation => "value violates the parameter constraint".to_owned(),
            Self::AmbiguousChoice(text) => concat("choice label is ambiguous: ", text),
            Self::UnsupportedConstraint =>
                "constraint type is unsupported; safe writes are unavailable".to_owned(),
        }
    }
}

/// The bytes, where there are as many as there should be.
pub open spec fn sized<T>(bytes: Seq<u8>, expected: usize, value: T) -> Result<T, ValueErrorView> {
    if bytes.len() == expected {
        Ok(value)
    } else {
        Err(ValueErrorView::InvalidLength { expected, actual: bytes.len() as usize })
    }
}

/// The text that bytes hold: UTF-8 that ends with the only NUL.
pub open spec fn terminated_text(bytes: Seq<u8>) -> Result<Seq<char>, ValueErrorView> {
    if bytes.len() == 0 || bytes.last() != 0 {
        Err(ValueErrorView::UnterminatedString)
    } else if bytes.drop_last().contains(0) {
        Err(ValueErrorView::EmbeddedNul)
    } else {
        match utf8_text(bytes.drop_last()) {
            Ok(text) => Ok(text),
            Err(failure) => Err(ValueErrorView::Utf8(failure)),
        }
    }
}

/// The value of the type that bytes hold.
pub open spec fn decoded_value(parameter_type: ParameterType, bytes: Seq<u8>) -> Result<
    ValueView,
    ValueErrorView,
> {
    match parameter_type {
        ParameterType::Int16 => sized(
            bytes,
            2,
            ValueView::Int16 { value: signed16(be16(bytes, 0)) },
        ),
        ParameterType::Int32 => sized(
            bytes,
            4,
            ValueView::Int32 { value: signed32(be32(bytes, 0)) },
        ),
        ParameterType::Float32 => sized(
            bytes,
            4,
            ValueView::Float32 { value: Float32 { bits: be32(bytes, 0) } },
        ),
        ParameterType::String { .. } => match terminated_text(bytes) {
            Ok(value) => Ok(ValueView::String { value }),
            Err(error) => Err(error),
        },
        _ => Err(ValueErrorView::UnsupportedType(parameter_type)),
    }
}

/// The value that a device sent for a parameter.
pub fn decode(parameter: &Parameter, bytes: &[u8]) -> (r: Result<ParameterValue, ValueError>)
    ensures
        result_view(r) == decoded_value(parameter@.parameter_type, bytes@),
{
    match parameter.parameter_type {
        ParameterType::Int16 => if bytes.len() == 2 {
            Ok(ParameterValue::Int16 { value: to_signed16(read16(bytes, 0)) })
        } else {
            Err(ValueError::InvalidLength { expected: 2, actual: bytes.len() })
        },
        ParameterType::Int32 => if bytes.len() == 4 {
            Ok(ParameterValue::Int32 { value: to_signed32(read32(bytes, 0)) })
        } else {
            Err(ValueError::InvalidLength { expected: 4, actual: bytes.len() })
        },
        ParameterType::Float32 => if bytes.len() == 4 {
            Ok(ParameterValue::Float32 { value: Float32 { bits: read32(bytes, 0) } })
        } else {
            Err(ValueError::InvalidLength { expected: 4, actual: bytes.len() })
        },
        ParameterType::String { .. } => {
            let length: usize = bytes.len();
            if length == 0 || bytes[length - 1] != 0 {
                return Err(ValueError::UnterminatedString);
            }
            let text = &bytes[0..length - 1];
            assert(text@ =~= bytes@.drop_last());
            if contains_byte(text, 0) {
                return Err(ValueError::EmbeddedNul);
            }
            match decode_text(text) {
                Ok(value) => Ok(ParameterValue::String { value }),
                Err(failure) => Err(ValueError::Utf8(failure)),
            }
        },
        _ => Err(ValueError::UnsupportedType(parameter.parameter_type)),
    }
}

/// Whether a range allows a number: it is finite, lies between the ends, and on a step where
/// there is one.
pub open spec fn in_range(
    number: Real,
    minimum: Real,
    maximum: Real,
    step: Option<Real>,
) -> bool {
    &&& number is Finite
    &&& !less(number, minimum)
    &&& !less(maximum, number)
    &&& step matches Some(step) ==> !off_step(number, minimum, step)
}

/// Whether a constraint allows a value.
pub open spec fn allowed(constraint: ConstraintView, value: ValueView) -> Result<
    (),
    ValueErrorView,
>
    decreases constraint,
{
    let violation = Err(ValueErrorView::ConstraintViolation);
    match constraint {
        ConstraintView::Unconstrained => Ok(()),
        ConstraintView::AlarmTable { .. } => Ok(()),
        ConstraintView::Choice { choices } => if exists|i: int|
            0 <= i < choices.len() && same_value((#[trigger] choices[i]).value, value) {
            Ok(())
        } else {
            violation
        },
        ConstraintView::StringChoice { choices, arbitrary_values_allowed } => match value {
            ValueView::String { value } => if arbitrary_values_allowed || choices.contains(value) {
                Ok(())
            } else {
                violation
            },
            _ => violation,
        },
        ConstraintView::Range { minimum, maximum, step, .. } => match (
            value_number(value),
            value_number(minimum),
            value_number(maximum),
        ) {
            (Some(number), Some(low), Some(high)) => if in_range(
                number,
                low,
                high,
                match step {
                    Some(step) => value_number(step),
                    None => None,
                },
            ) {
                Ok(())
            } else {
                violation
            },
            _ => violation,
        },
        ConstraintView::External { resolved, .. } => allowed(*resolved, value),
        ConstraintView::Unsupported { .. } => Err(ValueErrorView::UnsupportedConstraint),
    }
}

fn validate_constraint(constraint: &Constraint, value: &ParameterValue) -> (r: Result<
    (),
    ValueError,
>)
    ensures
        result_view(r) == allowed(constraint@, value@),
    decreases *constraint,
{
    match constraint {
        Constraint::Unconstrained => Ok(()),
        Constraint::AlarmTable { .. } => Ok(()),
        Constraint::Choice { choices } => {
            let mut i: usize = 0;
            let ghost all = views(choices@);
            while i < choices.len()
                invariant
                    i <= choices@.len(),
                    all == views(choices@),
                    constraint@ == (ConstraintView::Choice { choices: all }),
                    forall|k: int| 0 <= k < i ==> !same_value((#[trigger] all[k]).value, value@),
                decreases choices@.len() - i,
            {
                if choices[i].value.same(value) {
                    assert(same_value(all[i as int].value, value@));
                    return Ok(());
                }
                i += 1;
            }
            Err(ValueError::ConstraintViolation)
        },
        Constraint::StringChoice { choices, arbitrary_values_allowed } => match value {
            ParameterValue::String { value } => if *arbitrary_values_allowed || contains_text(
                choices,
                value,
            ) {
                Ok(())
            } else {
                Err(ValueError::ConstraintViolation)
            },
            _ => Err(ValueError::ConstraintViolation),
        },
        Constraint::Range { minimum, maximum, step, .. } => {
            let (number, low, high) = match (value.number(), minimum.number(), maximum.number()) {
                (Some(number), Some(low), Some(high)) => (number, low, high),
                _ => return Err(ValueError::ConstraintViolation),
            };
            let finite = match number {
                Number::Finite(_) => true,
                _ => false,
            };
            if !finite || is_less(number, low) || is_less(high, number) {
                return Err(ValueError::ConstraintViolation);
            }
            if let Some(step) = step {
                if let Some(size) = step.number() {
                    if is_off_step(number, low, size) {
                        return Err(ValueError::ConstraintViolation);
                    }
                }
            }
            Ok(())
        },
        Constraint::External { resolved, .. } => validate_constraint(resolved, value),
        Constraint::Unsupported { .. } => Err(ValueError::UnsupportedConstraint),
    }
}

/// The bytes that give a parameter a value.
pub open spec fn encoded_value(parameter: ParameterView, value: ValueView) -> Result<
    Seq<u8>,
    ValueErrorView,
> {
    if !type_accepts(parameter.parameter_type, value) {
        Err(ValueErrorView::TypeMismatch)
    } else {
        match allowed(parameter.constraint, value) {
            Err(error) => Err(error),
            Ok(()) => match value {
                ValueView::Int16 { value } => Ok(be16_bytes(unsigned16(value))),
                ValueView::Int32 { value } => Ok(be32_bytes(unsigned32(value))),
                ValueView::Float32 { value } => if float_number(value.bits) is Finite {
                    Ok(be32_bytes(value.bits))
                } else {
                    Err(ValueErrorView::NonFiniteFloat)
                },
                ValueView::String { value } => {
                    let bytes = encode_utf8(value);
                    if bytes.contains(0) {
                        Err(ValueErrorView::EmbeddedNul)
                    } else {
                        match parameter.parameter_type {
                            ParameterType::String { max_bytes: Some(maximum) } if bytes.len()
                                > maximum => Err(
                                ValueErrorView::StringTooLong {
                                    maximum: maximum as usize,
                                    actual: bytes.len() as usize,
                                },
                            ),
                            _ => Ok(bytes.push(0)),
                        }
                    }
                },
            },
        }
    }
}

/// The bytes that give a parameter a value.
pub fn encode(parameter: &Parameter, value: &ParameterValue) -> (r: Result<Vec<u8>, ValueError>)
    ensures
        result_view(r) == encoded_value(parameter@, value@),
{
    if !parameter.parameter_type.accepts(value) {
        return Err(ValueError::TypeMismatch);
    }
    if let Err(error) = validate_constraint(&parameter.constraint, value) {
        return Err(error);
    }
    let mut bytes: Vec<u8> = Vec::new();
    match value {
        ParameterValue::Int16 { value } => {
            push16(&mut bytes, to_unsigned16(*value));
            assert(bytes@ =~= be16_bytes(unsigned16(*value)));
        },
        ParameterValue::Int32 { value } => {
            push32(&mut bytes, to_unsigned32(*value));
            assert(bytes@ =~= be32_bytes(unsigned32(*value)));
        },
        ParameterValue::Float32 { value } => {
            match number_of_float(value.bits) {
                Number::Finite(_) => {},
                _ => return Err(ValueError::NonFiniteFloat),
            }
            push32(&mut bytes, value.bits);
            assert(bytes@ =~= be32_bytes(value.bits));
        },
        ParameterValue::String { value } => {
            let text = value.as_str().as_bytes();
            if contains_byte(text, 0) {
                return Err(ValueError::EmbeddedNul);
            }
            if let ParameterType::String { max_bytes: Some(maximum) } = parameter.parameter_type {
                if text.len() > maximum as usize {
                    return Err(
                        ValueError::StringTooLong {
                            maximum: maximum as usize,
                            actual: text.len(),
                        },
                    );
                }
            }
            push_bytes(&mut bytes, text);
            bytes.push(0);
            assert(bytes@ =~= encode_utf8(value@).push(0));
        },
    }
    Ok(bytes)
}

/// The 16-bit number that a text writes: in hexadecimal, as bits, or in decimal.
pub open spec fn int16_of(text: Seq<char>) -> Option<i16> {
    match hex_digits(text) {
        Some(digits) => match unsigned_value(digits, 16) {
            Some(bits) if bits <= 0xFFFF => Some(signed16(bits as u16)),
            _ => None,
        },
        None => match signed_value(text) {
            Some(n) if -0x8000 <= n <= 0x7FFF => Some(n as i16),
            _ => None,
        },
    }
}

/// The 32-bit number that a text writes: in hexadecimal, as bits, or in decimal.
pub open spec fn int32_of(text: Seq<char>) -> Option<i32> {
    match hex_digits(text) {
        Some(digits) => match unsigned_value(digits, 16) {
            Some(bits) if bits <= 0xFFFF_FFFF => Some(signed32(bits as u32)),
            _ => None,
        },
        None => match signed_value(text) {
            Some(n) if -0x8000_0000 <= n <= 0x7FFF_FFFF => Some(n as i32),
            _ => None,
        },
    }
}

fn parse_i16(input: &str) -> (r: Option<i16>)
    ensures
        r == int16_of(input@),
{
    match strip_hex(input) {
        Some(digits) => match parse_unsigned(&digits, 16, 0xFFFF) {
            Some(bits) => Some(to_signed16(bits as u16)),
            None => None,
        },
        None => match parse_signed(input, 0x7FFF) {
            Some(n) => Some(n as i16),
            None => None,
        },
    }
}

fn parse_i32(input: &str) -> (r: Option<i32>)
    ensures
        r == int32_of(input@),
{
    match strip_hex(input) {
        Some(digits) => match parse_unsigned(&digits, 16, 0xFFFF_FFFF) {
            Some(bits) => Some(to_signed32(bits as u32)),
            None => None,
        },
        None => match parse_signed(input, 0x7FFF_FFFF) {
            Some(n) => Some(n as i32),
            None => None,
        },
    }
}

/// What is said of a text that is no value of a parameter: with the table of its values where
/// they can be listed.
pub open spec fn invalid_text_of(parameter: ParameterView, text: Seq<char>) -> ValueErrorView {
    match value_table(parameter) {
        Some(possible_values) => ValueErrorView::InvalidParameterValue {
            value: text,
            possible_values,
        },
        None => ValueErrorView::InvalidText(text),
    }
}

fn invalid_text(parameter: &Parameter, text: &str) -> (r: ValueError)
    ensures
        r@ == invalid_text_of(parameter@, text@),
{
    match possible_values_table(parameter) {
        Some(possible_values) => ValueError::InvalidParameterValue {
            value: text.to_owned(),
            possible_values,
        },
        None => ValueError::InvalidText(text.to_owned()),
    }
}

/// The value that sets off the action of a button: that of its only choice, or of the second of
/// two.
pub open spec fn action_of(parameter: ParameterView) -> Option<ValueView> {
    match resolved(parameter.constraint) {
        ConstraintView::Choice { choices } => if parameter.set_semantics == SetSemantics::Trigger
            && (choices.len() == 1 || choices.len() == 2) {
            Some(choices.last().value)
        } else {
            None
        },
        _ => None,
    }
}

/// Whether a choice has the label, in whatever case.
pub open spec fn labelled(text: Seq<char>) -> spec_fn(ChoiceView) -> bool {
    |choice: ChoiceView| fold(choice.display_name) == fold(text)
}

/// Whether one of the choices has another value than the first.
pub open spec fn values_differ(choices: Seq<ChoiceView>) -> bool {
    exists|i: int|
        0 <= i < choices.len() && !same_value((#[trigger] choices[i]).value, choices[0].value)
}

/// The value whose label a text is, where it is one. The label of a button stands for its action.
/// A label of choices with different values is ambiguous.
pub open spec fn choice_of(parameter: ParameterView, text: Seq<char>) -> Option<
    Result<ValueView, ValueErrorView>,
> {
    match resolved(parameter.constraint) {
        ConstraintView::Choice { choices } => {
            let matches = choices.filter(labelled(text));
            if matches.len() == 0 {
                None
            } else {
                match action_of(parameter) {
                    Some(action) => Some(Ok(action)),
                    None => if values_differ(matches) {
                        Some(Err(ValueErrorView::AmbiguousChoice(text)))
                    } else {
                        Some(Ok(matches[0].value))
                    },
                }
            }
        },
        _ => None,
    }
}

/// Whether a text is the same but for the case of letters.
pub open spec fn spelled(text: Seq<char>) -> spec_fn(Seq<char>) -> bool {
    |choice: Seq<char>| fold(choice) == fold(text)
}

/// The text itself, or the one of the choices that it spells but for the case of letters. Choices
/// that differ in nothing else are ambiguous.
pub open spec fn spelling_of(constraint: ConstraintView, text: Seq<char>) -> Result<
    Seq<char>,
    ValueErrorView,
> {
    match constraint {
        ConstraintView::StringChoice { choices, .. } => {
            let matches = choices.filter(spelled(text));
            if matches.len() == 0 {
                Ok(text)
            } else if forall|i: int| 0 <= i < matches.len() ==> #[trigger] matches[i] == matches[0] {
                Ok(matches[0])
            } else {
                Err(ValueErrorView::AmbiguousChoice(text))
            }
        },
        _ => Ok(text),
    }
}

/// The value of the type of a parameter that a text writes.
pub open spec fn written_value(parameter: ParameterView, text: Seq<char>) -> Result<
    ValueView,
    ValueErrorView,
> {
    let invalid = Err(invalid_text_of(parameter, text));
    match parameter.parameter_type {
        ParameterType::Int16 => match int16_of(text) {
            Some(value) => Ok(ValueView::Int16 { value }),
            None => invalid,
        },
        ParameterType::Int32 => match int32_of(text) {
            Some(value) => Ok(ValueView::Int32 { value }),
            None => invalid,
        },
        ParameterType::Float32 => match float_of_text(text) {
            Some(bits) => Ok(ValueView::Float32 { value: Float32 { bits } }),
            None => invalid,
        },
        ParameterType::String { .. } => match spelling_of(resolved(parameter.constraint), text) {
            Ok(value) => Ok(ValueView::String { value }),
            Err(error) => Err(error),
        },
        _ => Err(ValueErrorView::UnsupportedType(parameter.parameter_type)),
    }
}

/// The value that a text means: by its label, or else as it is written, where the constraint
/// allows it. A button takes no value but that of its action.
pub open spec fn parsed_text(parameter: ParameterView, text: Seq<char>) -> Result<
    ValueView,
    ValueErrorView,
> {
    match choice_of(parameter, text) {
        Some(result) => result,
        None => match written_value(parameter, text) {
            Err(error) => Err(error),
            Ok(value) => if action_of(parameter) matches Some(action) && !same_value(
                value,
                action,
            ) {
                Err(invalid_text_of(parameter, text))
            } else {
                match allowed(parameter.constraint, value) {
                    Ok(()) => Ok(value),
                    Err(ValueErrorView::ConstraintViolation) => Err(
                        invalid_text_of(parameter, text),
                    ),
                    Err(error) => Err(error),
                }
            },
        },
    }
}

/// The choices with the label.
fn find_labelled<'a>(choices: &'a Vec<Choice>, text: &str) -> (matches: Vec<&'a Choice>)
    ensures
        views(matches@) == views(choices@).filter(labelled(text@)),
{
    let mut matches: Vec<&'a Choice> = Vec::new();
    let mut i: usize = 0;
    let ghost all = views(choices@);
    proof {
        assert(views(matches@) =~= seq![]);
        lemma_filter_none(all.take(0), labelled(text@));
    }
    while i < choices.len()
        invariant
            i <= choices@.len(),
            all == views(choices@),
            views(matches@) == all.take(i as int).filter(labelled(text@)),
        decreases choices@.len() - i,
    {
        proof {
            lemma_filter_next(all, i as int, labelled(text@));
        }
        if label_eq(&choices[i].display_name, text) {
            let ghost before = matches@;
            matches.push(&choices[i]);
            assert(views(matches@) =~= views(before).push(all[i as int]));
        }
        i += 1;
    }
    assert(all.take(i as int) =~= all);
    matches
}

fn any_value_differs(choices: &Vec<&Choice>) -> (r: bool)
    requires
        choices@.len() > 0,
    ensures
        r == values_differ(views(choices@)),
{
    let ghost all = views(choices@);
    let mut i: usize = 0;
    assert(all[0] == choices@[0]@);
    while i < choices.len()
        invariant
            i <= choices@.len(),
            choices@.len() > 0,
            all == views(choices@),
            all[0] == choices@[0]@,
            forall|k: int| 0 <= k < i ==> same_value((#[trigger] all[k]).value, all[0].value),
        decreases choices@.len() - i,
    {
        if !choices[i].value.same(&choices[0].value) {
            assert(!same_value(all[i as int].value, all[0].value));
            return true;
        }
        i += 1;
    }
    false
}

fn find_choice(parameter: &Parameter, text: &str) -> (r: Option<
    Result<ParameterValue, ValueError>,
>)
    ensures
        match r {
            Some(result) => choice_of(parameter@, text@) == Some(result_view(result)),
            None => choice_of(parameter@, text@) is None,
        },
{
    if let Constraint::Choice { choices } = parameter.resolved_constraint() {
        let matches = find_labelled(choices, text);
        if matches.len() == 0 {
            return None;
        }
        if let Some(action) = trigger_action(parameter) {
            return Some(Ok(action.clone()));
        }
        assert(views(matches@)[0] == matches@[0]@);
        if any_value_differs(&matches) {
            return Some(Err(ValueError::AmbiguousChoice(text.to_owned())));
        }
        return Some(Ok(matches[0].value.clone()));
    }
    None
}

fn trigger_action(parameter: &Parameter) -> (r: Option<&ParameterValue>)
    ensures
        option_view(r) == action_of(parameter@),
{
    if let Constraint::Choice { choices } = parameter.resolved_constraint() {
        if parameter.set_semantics == SetSemantics::Trigger && (choices.len() == 1 || choices.len()
            == 2) {
            return Some(&choices[choices.len() - 1].value);
        }
    }
    None
}

/// The choices that a text spells.
fn find_spelled<'a>(choices: &'a Vec<String>, text: &str) -> (matches: Vec<&'a String>)
    ensures
        views(matches@) == views(choices@).filter(spelled(text@)),
{
    let mut matches: Vec<&'a String> = Vec::new();
    let mut i: usize = 0;
    let ghost all = views(choices@);
    proof {
        assert(views(matches@) =~= seq![]);
        lemma_filter_none(all.take(0), spelled(text@));
    }
    while i < choices.len()
        invariant
            i <= choices@.len(),
            all == views(choices@),
            views(matches@) == all.take(i as int).filter(spelled(text@)),
        decreases choices@.len() - i,
    {
        proof {
            lemma_filter_next(all, i as int, spelled(text@));
        }
        if label_eq(&choices[i], text) {
            let ghost before = matches@;
            matches.push(&choices[i]);
            assert(views(matches@) =~= views(before).push(all[i as int]));
        }
        i += 1;
    }
    assert(all.take(i as int) =~= all);
    matches
}

fn find_spelling(constraint: &Constraint, text: &str) -> (r: Result<String, ValueError>)
    ensures
        result_view(r) == spelling_of(constraint@, text@),
{
    if let Constraint::StringChoice { choices, .. } = constraint {
        let matches = find_spelled(choices, text);
        if matches.len() == 0 {
            return Ok(text.to_owned());
        }
        let ghost all = views(matches@);
        assert(all[0] == matches@[0]@);
        let mut i: usize = 0;
        while i < matches.len()
            invariant
                i <= matches@.len(),
                matches@.len() > 0,
                all == views(matches@),
                all[0] == matches@[0]@,
                all == views(choices@).filter(spelled(text@)),
                constraint@ matches ConstraintView::StringChoice { choices: list, .. } && list
                    == views(choices@),
                forall|k: int| 0 <= k < i ==> #[trigger] all[k] == all[0],
            decreases matches@.len() - i,
        {
            assert(all[i as int] == matches@[i as int]@);
            if !same(matches[i], matches[0]) {
                return Err(ValueError::AmbiguousChoice(text.to_owned()));
            }
            i += 1;
        }
        return Ok(matches[0].clone());
    }
    Ok(text.to_owned())
}

/// The value that a text means for a parameter.
pub fn parse_text(parameter: &Parameter, text: &str) -> (r: Result<ParameterValue, ValueError>)
    ensures
        result_view(r) == parsed_text(parameter@, text@),
{
    if let Some(result) = find_choice(parameter, text) {
        return result;
    }
    let value = match parameter.parameter_type {
        ParameterType::Int16 => match parse_i16(text) {
            Some(value) => ParameterValue::Int16 { value },
            None => return Err(invalid_text(parameter, text)),
        },
        ParameterType::Int32 => match parse_i32(text) {
            Some(value) => ParameterValue::Int32 { value },
            None => return Err(invalid_text(parameter, text)),
        },
        ParameterType::Float32 => match read_float(text) {
            Some(bits) => ParameterValue::Float32 { value: Float32 { bits } },
            None => return Err(invalid_text(parameter, text)),
        },
        ParameterType::String { .. } => match find_spelling(parameter.resolved_constraint(), text) {
            Ok(value) => ParameterValue::String { value },
            Err(error) => return Err(error),
        },
        _ => return Err(ValueError::UnsupportedType(parameter.parameter_type)),
    };
    if let Some(action) = trigger_action(parameter) {
        if !value.same(action) {
            return Err(invalid_text(parameter, text));
        }
    }
    match validate_constraint(&parameter.constraint, &value) {
        Ok(()) => Ok(value),
        Err(ValueError::ConstraintViolation) => Err(invalid_text(parameter, text)),
        Err(error) => Err(error),
    }
}

} // verus!
