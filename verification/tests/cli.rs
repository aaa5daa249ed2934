use og_param::bytes::Utf8Failure;
use og_param::cli::error::{connection_guidance, missing_value_error, CliError};
use og_param::cli::guidance::ambiguous_parameter_guidance;
use og_param::cli::info::record_info_result;
use og_param::cli::output::{display_result, parameter_table};
use og_param::client::ClientError;
use og_param::model::{
    Access, Choice, Constraint, DeviceCatalog, DisplayValue, KnownWidget, Menu, MenuGroup,
    MenuPath, Parameter, ParameterCandidate, ParameterOid, ParameterRole, ParameterType,
    ParameterValue, SetSemantics, Widget,
};

#[test]
fn missing_write_value_lists_trigger_action() {
    let mut parameter = parameter();
    parameter.set_semantics = SetSemantics::Trigger;
    parameter.constraint = Constraint::Choice {
        choices: vec![
            Choice {
                value: ParameterValue::Int16 { value: 0 },
                display_name: "Restore".into(),
            },
            Choice {
                value: ParameterValue::Int16 { value: 57 },
                display_name: "Restore".into(),
            },
        ],
    };
    assert!(
        missing_value_error(&parameter)
            .to_string()
            .contains("| Restore | 57")
    );
}

#[test]
fn malformed_info_value_becomes_a_warning() {
    let parameter = parameter().identity();
    let mut warnings = Vec::new();
    let value = record_info_result(
        "Product",
        parameter.oid.clone(),
        Err(ClientError::InvalidParameterValue {
            parameter,
            bytes: "FF 00".into(),
            source: og_param::value::ValueError::Utf8(Utf8Failure {
                valid_up_to: 0,
                error_len: Some(1),
            }),
        }),
        &mut warnings,
    );
    assert!(value.is_none());
    assert_eq!(warnings.len(), 1);
    assert!(warnings[0].message.contains("bytes: FF 00"));
}

#[test]
fn connection_in_use_error_has_actionable_output() {
    let error = CliError::Client(ClientError::ConnectionInUse);
    assert_eq!(error.kind(), "connection_in_use");
    assert_eq!(
        connection_guidance(&error),
        Some("Retry without --no-force to force the connection and disconnect another client.")
    );
}

#[test]
fn identical_name_and_menu_candidates_require_oid_selection() {
    let menu = MenuPath {
        group: "Configuration".into(),
        menu: "Input".into(),
        group_required: false,
    };
    let candidates = vec![
        ParameterCandidate {
            parameter: Parameter {
                oid: ParameterOid::Numeric(0x1201),
                ..parameter()
            }
            .identity(),
            menus: vec![menu.clone()],
        },
        ParameterCandidate {
            parameter: Parameter {
                oid: ParameterOid::Numeric(0x1202),
                ..parameter()
            }
            .identity(),
            menus: vec![menu],
        },
    ];

    let guidance = ambiguous_parameter_guidance(&candidates);

    assert!(guidance.starts_with("No unique menu qualifier"));
    assert!(guidance.contains("oid:0x1201  Parameter  [Input]"));
    assert!(guidance.contains("oid:0x1202  Parameter  [Input]"));
    assert!(!guidance.contains("--menu"));
}

#[test]
fn distinct_candidate_menus_remain_actionable_qualifiers() {
    let candidates = [
        ParameterCandidate {
            parameter: Parameter {
                oid: ParameterOid::Numeric(0x1201),
                ..parameter()
            }
            .identity(),
            menus: vec![MenuPath {
                group: "Configuration".into(),
                menu: "Input 1".into(),
                group_required: false,
            }],
        },
        ParameterCandidate {
            parameter: Parameter {
                oid: ParameterOid::Numeric(0x1202),
                ..parameter()
            }
            .identity(),
            menus: vec![MenuPath {
                group: "Configuration".into(),
                menu: "Input 2".into(),
                group_required: false,
            }],
        },
    ];

    let guidance = ambiguous_parameter_guidance(&candidates);

    assert!(guidance.contains("--menu \"Input 1\"  (oid:0x1201)"));
    assert!(guidance.contains("--menu \"Input 2\"  (oid:0x1202)"));
}

#[test]
fn possible_values_use_compact_indentation() {
    let mut parameter = parameter();
    parameter.constraint = Constraint::Choice {
        choices: vec![Choice {
            value: ParameterValue::Int16 { value: 1 },
            display_name: "On".into(),
        }],
    };
    let catalog = DeviceCatalog::new(vec![parameter.clone()]).unwrap();
    let table = parameter_table(&catalog, &[&parameter]);
    assert!(table.contains("\n  Possible values:\n    +"));
    assert!(!table.contains("                                  Possible values"));
}

#[test]
fn list_outputs_include_appropriate_menu_context() {
    let first = parameter();
    let mut second = parameter();
    second.oid = ParameterOid::Numeric(2);
    let mut third = parameter();
    third.oid = ParameterOid::Numeric(3);
    let mut catalog = DeviceCatalog::new(vec![first.clone(), second.clone(), third.clone()])
        .expect("test OIDs are unique");
    catalog.set_menus(
        vec![
            MenuGroup {
                index: 0,
                name: "Configuration".into(),
                menus: vec![menu(0, "Input", &first), menu(1, "System", &third)],
            },
            MenuGroup {
                index: 1,
                name: "Status".into(),
                menus: vec![menu(0, "Input", &second)],
            },
        ],
        None,
        Vec::new(),
    );

    let table = parameter_table(&catalog, &[&first, &second, &third]);
    assert!(table.contains("Input (Configuration)"));
    assert!(table.contains("Input (Status)"));
    assert!(table.contains("System"));
    assert!(!table.contains("System (Configuration)"));

    let menus = catalog.menu_paths(&third);
    assert_eq!(menus.len(), 1);
    assert_eq!(menus[0].menu, "System");
    assert_eq!(menus[0].group, "Configuration");
    let menus = catalog.menu_paths(&first);
    assert_eq!(menus.len(), 1);
    assert_eq!(menus[0].menu, "Input");
    assert_eq!(menus[0].group, "Configuration");
}

#[test]
fn numeric_choice_results_include_the_raw_value() {
    assert_eq!(
        display_result(
            &ParameterValue::Int16 { value: 4 },
            Some(&DisplayValue::Label {
                value: "Free Run".into(),
            }),
        ),
        "Free Run (raw_value=4)"
    );
    assert_eq!(
        display_result(
            &ParameterValue::String {
                value: "Auto".into(),
            },
            Some(&DisplayValue::Label {
                value: "Auto".into(),
            }),
        ),
        "Auto"
    );
}

fn parameter() -> Parameter {
    Parameter {
        oid: ParameterOid::Numeric(1),
        display_name: "Parameter".into(),
        parameter_type: ParameterType::Int16,
        access: Access::ReadWrite,
        precision: None,
        widget: Widget {
            value: 7,
            known_kind: Some(KnownWidget::Choice),
        },
        role: ParameterRole::Operational,
        set_semantics: SetSemantics::Value,
        constraint: Constraint::Unconstrained,
    }
}

fn menu(index: u8, name: &str, parameter: &Parameter) -> Menu {
    Menu {
        index,
        name: name.into(),
        stable_id: index.into(),
        layout_url: None,
        members: vec![parameter.oid.clone()],
    }
}
