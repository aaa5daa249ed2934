use og_param::model::{
    Access, Choice, Constraint, KnownWidget, Parameter, ParameterOid, ParameterRole,
    ParameterType, ParameterValue, SetSemantics, Widget,
};
use og_param::value::{parse_text, ValueError};

#[test]
fn duplicate_choice_labels_with_different_values_are_ambiguous() {
    let mut parameter = parameter();
    parameter.constraint = Constraint::Choice {
        choices: vec![
            Choice {
                value: ParameterValue::Int16 { value: 1 },
                display_name: "Duplicate".into(),
            },
            Choice {
                value: ParameterValue::Int16 { value: 2 },
                display_name: "Duplicate".into(),
            },
        ],
    };
    assert!(matches!(
        parse_text(&parameter, "Duplicate"),
        Err(ValueError::AmbiguousChoice(_))
    ));
}

#[test]
fn choice_labels_ignore_ascii_case() {
    let mut parameter = parameter();
    parameter.constraint = Constraint::Choice {
        choices: vec![Choice {
            value: ParameterValue::Int16 { value: 4 },
            display_name: "Free Run".into(),
        }],
    };
    assert_eq!(
        parse_text(&parameter, "free run").unwrap(),
        ParameterValue::Int16 { value: 4 }
    );
}

#[test]
fn string_choice_uses_the_canonical_device_spelling() {
    let mut parameter = parameter();
    parameter.parameter_type = ParameterType::String {
        max_bytes: Some(32),
    };
    parameter.constraint = Constraint::StringChoice {
        choices: vec!["Auto".into()],
        arbitrary_values_allowed: true,
    };
    assert_eq!(
        parse_text(&parameter, "auto").unwrap(),
        ParameterValue::String {
            value: "Auto".into()
        }
    );
    assert_eq!(
        parse_text(&parameter, "custom").unwrap(),
        ParameterValue::String {
            value: "custom".into()
        }
    );
}

#[test]
fn string_choices_differing_only_by_case_are_ambiguous() {
    let mut parameter = parameter();
    parameter.parameter_type = ParameterType::String {
        max_bytes: Some(32),
    };
    parameter.constraint = Constraint::StringChoice {
        choices: vec!["Auto".into(), "AUTO".into()],
        arbitrary_values_allowed: true,
    };
    assert!(matches!(
        parse_text(&parameter, "auto"),
        Err(ValueError::AmbiguousChoice(_))
    ));
}

#[test]
fn invalid_choice_lists_all_possible_values() {
    let mut parameter = parameter();
    parameter.constraint = Constraint::Choice {
        choices: vec![
            Choice {
                value: ParameterValue::Int16 { value: 0 },
                display_name: "Off".into(),
            },
            Choice {
                value: ParameterValue::Int16 { value: 1 },
                display_name: "On".into(),
            },
        ],
    };

    let error = parse_text(&parameter, "invalid").unwrap_err();

    assert_eq!(
        error.to_string(),
        "invalid value: invalid\npossible values:\n+-------+-----------+\n| VALUE | RAW VALUE |\n+-------+-----------+\n| Off   | 0         |\n| On    | 1         |\n+-------+-----------+"
    );
}

#[test]
fn disallowed_numeric_choice_lists_all_possible_values() {
    let mut parameter = parameter();
    parameter.constraint = Constraint::Choice {
        choices: vec![
            Choice {
                value: ParameterValue::Int16 { value: 0 },
                display_name: "Off".into(),
            },
            Choice {
                value: ParameterValue::Int16 { value: 1 },
                display_name: "On".into(),
            },
        ],
    };

    let error = parse_text(&parameter, "2").unwrap_err();

    assert_eq!(
        error.to_string(),
        "invalid value: 2\npossible values:\n+-------+-----------+\n| VALUE | RAW VALUE |\n+-------+-----------+\n| Off   | 0         |\n| On    | 1         |\n+-------+-----------+"
    );
}

#[test]
fn external_choice_labels_are_accepted() {
    let mut parameter = parameter();
    parameter.constraint = Constraint::External {
        object_id: 7,
        resolved: Box::new(Constraint::Choice {
            choices: vec![Choice {
                value: ParameterValue::Int16 { value: 1 },
                display_name: "On".into(),
            }],
        }),
    };
    assert_eq!(
        parse_text(&parameter, "On").unwrap(),
        ParameterValue::Int16 { value: 1 }
    );
}

#[test]
fn two_choice_trigger_label_selects_the_action_value() {
    let mut parameter = parameter();
    parameter.set_semantics = SetSemantics::Trigger;
    parameter.constraint = Constraint::Choice {
        choices: vec![
            Choice {
                value: ParameterValue::Int16 { value: 0 },
                display_name: "Restore".into(),
            },
            Choice {
                value: ParameterValue::Int16 { value: 57 },
                display_name: "Restore".into(),
            },
        ],
    };
    assert_eq!(
        parse_text(&parameter, "Restore").unwrap(),
        ParameterValue::Int16 { value: 57 }
    );
    assert!(parse_text(&parameter, "0").is_err());
    assert_eq!(
        parse_text(&parameter, "57").unwrap(),
        ParameterValue::Int16 { value: 57 }
    );
}

fn parameter() -> Parameter {
    Parameter {
        oid: ParameterOid::Numeric(1),
        display_name: "Parameter".into(),
        parameter_type: ParameterType::Int16,
        access: Access::ReadWrite,
        precision: None,
        widget: Widget {
            value: 7,
            known_kind: Some(KnownWidget::Choice),
        },
        role: ParameterRole::Operational,
        set_semantics: SetSemantics::Value,
        constraint: Constraint::Unconstrained,
    }
}
