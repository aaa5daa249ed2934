use og_param::csv_output::{current, possible_values_table};
use og_param::model::{
    Access, Choice, Constraint, DeviceCatalog, KnownWidget, Menu, MenuGroup, Parameter,
    ParameterOid, ParameterRole, ParameterType, ParameterValue, SetSemantics, Widget,
};

#[test]
fn choice_table_includes_labels_and_values() {
    let mut parameter = parameter();
    parameter.constraint = Constraint::Choice {
        choices: vec![
            Choice {
                value: ParameterValue::Int16 { value: 0 },
                display_name: "Off".into(),
            },
            Choice {
                value: ParameterValue::Int16 { value: 1 },
                display_name: "On".into(),
            },
        ],
    };
    assert_eq!(
        possible_values_table(&parameter).unwrap(),
        "+-------+-----------+\n| VALUE | RAW VALUE |\n+-------+-----------+\n| Off   | 0         |\n| On    | 1         |\n+-------+-----------+"
    );
}

#[test]
fn current_csv_includes_conditional_menu_context() {
    let parameter = parameter();
    let mut catalog = DeviceCatalog::new(vec![parameter.clone()]).unwrap();
    catalog.set_menus(
        vec![MenuGroup {
            index: 0,
            name: "Configuration".into(),
            menus: vec![Menu {
                index: 0,
                name: "Input".into(),
                stable_id: 0,
                layout_url: None,
                members: vec![parameter.oid.clone()],
            }],
        }],
        None,
        Vec::new(),
    );

    let output = String::from_utf8(current(&catalog).unwrap()).unwrap();
    assert!(output.starts_with("OID,Display Name,Menu,Type,"));
    assert!(output.contains("0x0001,Parameter,Input,int16,"));
    assert!(!output.contains("Input (Configuration)"));
}

fn parameter() -> Parameter {
    Parameter {
        oid: ParameterOid::Numeric(1),
        display_name: "Parameter".into(),
        parameter_type: ParameterType::Int16,
        access: Access::ReadWrite,
        precision: None,
        widget: Widget {
            value: 7,
            known_kind: Some(KnownWidget::Choice),
        },
        role: ParameterRole::Operational,
        set_semantics: SetSemantics::Value,
        constraint: Constraint::Unconstrained,
    }
}
