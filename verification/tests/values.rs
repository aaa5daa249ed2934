use og_param::csv_output::raw_value;
use og_param::model::{
    Access, ActiveAlarm, AlarmDefinition, AlarmDisplay, Choice, Constraint, DisplayNumber,
    DisplayValue, Parameter, ParameterOid, ParameterRole, ParameterType, ParameterValue,
    SetSemantics, Widget,
};
use og_param::number::{Float32, Float64};
use og_param::value::{decode, encode, parse_text, ValueError};

fn parameter(parameter_type: ParameterType, constraint: Constraint) -> Parameter {
    Parameter {
        oid: ParameterOid::Numeric(1),
        display_name: "P".into(),
        parameter_type,
        access: Access::ReadWrite,
        precision: None,
        widget: Widget { value: 0, known_kind: None },
        role: ParameterRole::Operational,
        set_semantics: SetSemantics::Value,
        constraint,
    }
}

fn int16(value: i16) -> ParameterValue {
    ParameterValue::Int16 { value }
}

fn int32(value: i32) -> ParameterValue {
    ParameterValue::Int32 { value }
}

fn float(value: f32) -> ParameterValue {
    ParameterValue::Float32 {
        value: Float32 { bits: value.to_bits() },
    }
}

fn string(value: &str) -> ParameterValue {
    ParameterValue::String { value: value.into() }
}

fn text<T>(result: Result<T, ValueError>) -> String {
    match result {
        Ok(_) => panic!("an error was expected"),
        Err(error) => error.to_string(),
    }
}

#[test]
fn values_come_back_as_they_were_written() {
    let cases = [
        (ParameterType::Int16, int16(-2), vec![0xFF, 0xFE]),
        (ParameterType::Int32, int32(i32::MIN), vec![0x80, 0, 0, 0]),
        (ParameterType::Float32, float(1.5), vec![0x3F, 0xC0, 0, 0]),
        (ParameterType::String { max_bytes: None }, string("h\u{e9}"), b"h\xC3\xA9\0".to_vec()),
        (ParameterType::String { max_bytes: Some(2) }, string("ab"), b"ab\0".to_vec()),
    ];
    for (parameter_type, value, bytes) in cases {
        let parameter = parameter(parameter_type, Constraint::Unconstrained);
        assert_eq!(encode(&parameter, &value).unwrap(), bytes);
        assert_eq!(decode(&parameter, &bytes).unwrap(), value);
    }
}

#[test]
fn malformed_values_are_refused() {
    let number = parameter(ParameterType::Int16, Constraint::Unconstrained);
    assert_eq!(text(decode(&number, &[1])), "expected 2 value bytes, received 1");
    let number = parameter(ParameterType::Int32, Constraint::Unconstrained);
    assert_eq!(text(decode(&number, &[1])), "expected 4 value bytes, received 1");
    let name = parameter(ParameterType::String { max_bytes: None }, Constraint::Unconstrained);
    assert_eq!(text(decode(&name, &[])), "string value is not NUL-terminated");
    assert_eq!(text(decode(&name, b"a")), "string value is not NUL-terminated");
    assert_eq!(text(decode(&name, b"a\0b\0")), "string value contains an embedded NUL");
    assert_eq!(
        text(decode(&name, b"\xFF\0")),
        "value is not valid UTF-8: invalid utf-8 sequence of 1 bytes from index 0"
    );
    let arrays = [
        (ParameterType::Int16Array { length: Some(4) }, "Int16Array { length: Some(4) }"),
        (ParameterType::Int32Array { length: None }, "Int32Array { length: None }"),
        (ParameterType::Float32Array { length: Some(1) }, "Float32Array { length: Some(1) }"),
        (
            ParameterType::StringArray { length: None, max_element_bytes: Some(7) },
            "StringArray { length: None, max_element_bytes: Some(7) }",
        ),
        (ParameterType::Binary, "Binary"),
        (ParameterType::Unsupported { type_id: 9 }, "Unsupported { type_id: 9 }"),
    ];
    for (parameter_type, name) in arrays {
        assert_eq!(format!("{parameter_type:?}"), name);
        let parameter = parameter(parameter_type, Constraint::Unconstrained);
        let expected = format!("parameter type is not supported at runtime: {name}");
        assert_eq!(text(decode(&parameter, &[])), expected);
        assert_eq!(text(parse_text(&parameter, "1")), expected);
    }
}

#[test]
fn values_that_cannot_be_written_are_refused() {
    let number = parameter(ParameterType::Int16, Constraint::Unconstrained);
    assert_eq!(text(encode(&number, &int32(1))), "value does not match parameter type");
    let real = parameter(ParameterType::Float32, Constraint::Unconstrained);
    assert_eq!(
        text(encode(&real, &float(f32::NAN))),
        "non-finite float writes are not supported"
    );
    let name = parameter(ParameterType::String { max_bytes: Some(3) }, Constraint::Unconstrained);
    assert_eq!(text(encode(&name, &string("a\0"))), "string value contains an embedded NUL");
    assert_eq!(
        text(encode(&name, &string("\u{e9}\u{e9}"))),
        "string is too long: maximum 3 UTF-8 bytes, received 4"
    );
    let unknown = parameter(ParameterType::Int16, Constraint::Unsupported { type_id: 9 });
    assert_eq!(
        text(encode(&unknown, &int16(1))),
        "constraint type is unsupported; safe writes are unavailable"
    );
}

fn range(minimum: ParameterValue, maximum: ParameterValue, step: Option<ParameterValue>) -> Constraint {
    Constraint::Range { minimum, maximum, display_minimum: None, display_maximum: None, step }
}

#[test]
fn ranges_and_steps_limit_values() {
    let stepped = parameter(ParameterType::Int16, range(int16(-10), int16(10), Some(int16(5))));
    for value in -12..=12 {
        let allowed = encode(&stepped, &int16(value)).is_ok();
        assert_eq!(allowed, (-10..=10).contains(&value) && (value + 10) % 5 == 0, "{value}");
    }
    assert_eq!(text(encode(&stepped, &int16(1))), "value violates the parameter constraint");
    let tenths = parameter(ParameterType::Float32, range(float(0.0), float(2.0), Some(float(0.1))));
    assert!(encode(&tenths, &float(0.7)).is_ok());
    assert!(encode(&tenths, &float(0.75)).is_err());
    assert!(encode(&tenths, &float(2.1)).is_err());
    assert!(encode(&tenths, &float(f32::INFINITY)).is_err());
    let free = parameter(ParameterType::Float32, range(float(-1.0), float(1.0), None));
    assert!(encode(&free, &float(0.123)).is_ok());
    let nested = parameter(
        ParameterType::Int16,
        Constraint::External {
            object_id: 1,
            resolved: Box::new(range(int16(0), int16(1), None)),
        },
    );
    assert!(encode(&nested, &int16(1)).is_ok());
    assert!(encode(&nested, &int16(2)).is_err());
}

#[test]
fn choices_limit_values() {
    let choice = Constraint::Choice {
        choices: vec![Choice { value: float(0.0), display_name: "Zero".into() }],
    };
    let real = parameter(ParameterType::Float32, choice);
    assert!(encode(&real, &float(-0.0)).is_ok());
    assert!(encode(&real, &float(1.0)).is_err());
    let closed = Constraint::StringChoice {
        choices: vec!["Auto".into()],
        arbitrary_values_allowed: false,
    };
    let name = parameter(ParameterType::String { max_bytes: None }, closed);
    assert!(encode(&name, &string("Auto")).is_ok());
    assert!(encode(&name, &string("auto")).is_err());
    assert_eq!(parse_text(&name, "AUTO").unwrap(), string("Auto"));
}

#[test]
fn text_is_read_by_type() {
    let short = parameter(ParameterType::Int16, Constraint::Unconstrained);
    for (input, value) in [("-5", -5), ("0xFFFF", -1), ("0X10", 16), ("+7", 7), ("-32768", i16::MIN)] {
        assert_eq!(parse_text(&short, input).unwrap(), int16(value));
    }
    for input in ["", "x", "0x", "0x10000", "32768", " 1"] {
        assert_eq!(text(parse_text(&short, input)), format!("invalid value: {input}"));
    }
    let long = parameter(ParameterType::Int32, Constraint::Unconstrained);
    assert_eq!(parse_text(&long, "0xFFFFFFFE").unwrap(), int32(-2));
    assert_eq!(parse_text(&long, "2147483647").unwrap(), int32(i32::MAX));
    assert!(parse_text(&long, "2147483648").is_err());
    let real = parameter(ParameterType::Float32, Constraint::Unconstrained);
    assert_eq!(parse_text(&real, "2.5").unwrap(), float(2.5));
    assert_eq!(text(parse_text(&real, "two")), "invalid value: two");
    let name = parameter(ParameterType::String { max_bytes: None }, Constraint::Unconstrained);
    assert_eq!(parse_text(&name, " x ").unwrap(), string(" x "));
}

#[test]
fn integer_text_is_read_as_that_integer() {
    let short = parameter(ParameterType::Int16, Constraint::Unconstrained);
    for value in [i16::MIN, -1, 0, 7, 12345, i16::MAX] {
        let text = og_param::csv_output::raw_value(&int16(value));
        assert_eq!(parse_text(&short, &text).unwrap(), int16(value));
    }
}

#[test]
fn ranges_are_listed_for_values_outside_them() {
    let stepped = parameter(ParameterType::Int16, range(int16(0), int16(10), Some(int16(5))));
    assert_eq!(
        text(parse_text(&stepped, "3")),
        "invalid value: 3\npossible values:\n\
         +---------+---------+------+\n\
         | MINIMUM | MAXIMUM | STEP |\n\
         +---------+---------+------+\n\
         | 0       | 10      | 5    |\n\
         +---------+---------+------+"
    );
    let unknown = parameter(ParameterType::Int16, Constraint::Unsupported { type_id: 9 });
    assert!(matches!(
        parse_text(&unknown, "3"),
        Err(ValueError::UnsupportedConstraint)
    ));
}

#[test]
fn choices_are_shown_by_their_labels() {
    let choices = vec![
        Choice { value: int16(0), display_name: "Off".into() },
        Choice { value: int16(1), display_name: "On".into() },
        Choice { value: int16(1), display_name: "Active".into() },
        Choice { value: int16(1), display_name: "On".into() },
    ];
    let mode = parameter(ParameterType::Int16, Constraint::Choice { choices });
    assert_eq!(
        mode.interpret(&int16(0), None),
        Some(DisplayValue::Label { value: "Off".into() })
    );
    assert_eq!(
        mode.interpret(&int16(1), None),
        Some(DisplayValue::Aliases { values: vec!["On".into(), "Active".into()] })
    );
    assert_eq!(mode.interpret(&int16(2), None), None);
    let name = parameter(
        ParameterType::String { max_bytes: None },
        Constraint::StringChoice { choices: vec!["A".into()], arbitrary_values_allowed: true },
    );
    assert_eq!(
        name.interpret(&string("A"), None),
        Some(DisplayValue::Label { value: "A".into() })
    );
    assert_eq!(name.interpret(&string("B"), None), None);
}

#[test]
fn alarms_are_decoded_bit_by_bit() {
    let alarms = vec![
        AlarmDefinition { bit: 0, name: "Fan".into(), severity_value: 2 },
        AlarmDefinition { bit: 15, name: "Power".into(), severity_value: 3 },
        AlarmDefinition { bit: 3, name: "Idle".into(), severity_value: 1 },
    ];
    let status = parameter(ParameterType::Int16, Constraint::AlarmTable { alarms });
    assert_eq!(
        status.interpret(&int16(i16::MIN + 1 + 4), None),
        Some(DisplayValue::Alarms {
            value: AlarmDisplay {
                active: vec![
                    ActiveAlarm { bit: 0, mask: 1, name: "Fan".into(), severity_value: 2 },
                    ActiveAlarm { bit: 15, mask: 0x8000, name: "Power".into(), severity_value: 3 },
                ],
                unknown_mask: 4,
            }
        })
    );
    assert_eq!(int16(-1).integer_bits(), Some(0xFFFF));
    assert_eq!(int32(-1).integer_bits(), Some(0xFFFF_FFFF));
    assert_eq!(string("").integer_bits(), None);
}

#[test]
fn display_scales_need_numbers_and_a_range() {
    let constraint = Constraint::Range {
        minimum: int16(0),
        maximum: int16(100),
        display_minimum: Some(int16(-10)),
        display_maximum: Some(int16(10)),
        step: None,
    };
    let mut gain = parameter(ParameterType::Int16, constraint);
    gain.precision = Some(1);
    let value = int16(25);
    let mapping = gain.display_mapping(&value).unwrap();
    assert_eq!(mapping.decimals, 1);
    assert_eq!(*mapping.display_minimum, int16(-10));
    assert_eq!(*mapping.maximum, int16(100));
    let number = DisplayNumber {
        value: Float64 { bits: (-5.0f64).to_bits() },
        formatted: "-5.0".into(),
    };
    assert_eq!(
        gain.interpret(&value, Some(number)),
        Some(DisplayValue::Numeric {
            value: Float64 { bits: (-5.0f64).to_bits() },
            formatted: "-5.0".into(),
        })
    );
    assert_eq!(gain.interpret(&value, None), None);
    assert!(gain.display_mapping(&string("x")).is_none());
    gain.constraint = Constraint::Range {
        minimum: int16(5),
        maximum: int16(5),
        display_minimum: Some(int16(-10)),
        display_maximum: Some(int16(10)),
        step: None,
    };
    assert!(gain.display_mapping(&value).is_none());
    gain.constraint = range(int16(0), int16(5), None);
    assert!(gain.display_mapping(&value).is_none());
}

#[test]
fn float_values_are_shown_and_read_in_decimal() {
    let real = parameter(ParameterType::Float32, Constraint::Unconstrained);
    let read = decode(&real, &[0x3F, 0xC0, 0, 0]).unwrap();
    assert_eq!(raw_value(&read), "1.5");
    assert_eq!(raw_value(&decode(&real, &[0x80, 0, 0, 0]).unwrap()), "-0");
    for text in ["1.5", "15e-1", "+0001.50", "1.49999999999999999999"] {
        assert_eq!(parse_text(&real, text).unwrap(), read);
    }
    let far = parse_text(&real, "1e39").unwrap();
    assert_eq!(raw_value(&far), "inf");
    assert_eq!(text(encode(&real, &far)), "non-finite float writes are not supported");
    let tenths = range(float(0.0), float(2.0), Some(float(0.1)));
    let stepped = parameter(ParameterType::Float32, tenths);
    assert_eq!(parse_text(&stepped, "0.3").unwrap(), float(0.3));
    assert!(parse_text(&stepped, "0.35").is_err());
    assert!(parse_text(&stepped, "2.1").is_err());
}
