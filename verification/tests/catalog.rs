use og_param::model::{
    Access, Constraint, DeviceCatalog, Menu, MenuGroup, Parameter, ParameterOid, ParameterRole,
    ParameterSelector, ParameterType, ResolveError, SetSemantics, Widget,
};

#[test]
fn oids_round_trip_as_canonical_strings() {
    assert_eq!(ParameterOid::from_str("261").unwrap().to_string(), "0x0105");
    assert_eq!(
        ParameterOid::from_str("mle.keyer.state")
            .unwrap()
            .to_string(),
        "mle.keyer.state"
    );
}

#[test]
fn duplicate_display_names_require_an_oid() {
    let catalog = DeviceCatalog::new(vec![
        parameter(ParameterOid::Numeric(1), "Duplicate"),
        parameter(ParameterOid::String("duplicate.value".into()), "duplicate"),
    ])
    .unwrap();
    let error = catalog
        .resolve(&ParameterSelector::DisplayName("DUPLICATE".into()))
        .unwrap_err();
    assert!(
        matches!(error, ResolveError::AmbiguousDisplayName { candidates, .. } if candidates.len() == 2)
    );
}

#[test]
fn display_menu_and_group_labels_ignore_ascii_case() {
    let mut catalog =
        DeviceCatalog::new(vec![parameter(ParameterOid::Numeric(0x0500), "Colorspace")])
            .unwrap();
    catalog.set_menus(
        vec![MenuGroup {
            index: 1,
            name: "CONFIGURATION".into(),
            menus: vec![menu(0, "SDI In 1", 0x0500)],
        }],
        None,
        Vec::new(),
    );
    assert_eq!(
        catalog
            .resolve_in_menu(
                Some("configuration"),
                "sdi in 1",
                &ParameterSelector::Auto("COLORSPACE".into()),
            )
            .unwrap()
            .oid,
        ParameterOid::Numeric(0x0500)
    );
}

#[test]
fn string_oids_remain_case_sensitive() {
    let catalog = DeviceCatalog::new(vec![parameter(
        ParameterOid::String("Mode.Value".into()),
        "Mode",
    )])
    .unwrap();
    assert!(
        catalog
            .resolve(&ParameterSelector::Oid(ParameterOid::String(
                "mode.value".into()
            )))
            .is_err()
    );
}

#[test]
fn auto_selector_reports_oid_and_display_name_collisions() {
    let catalog = DeviceCatalog::new(vec![
        parameter(ParameterOid::String("Mode".into()), "Other"),
        parameter(ParameterOid::Numeric(2), "mode"),
    ])
    .unwrap();
    assert!(matches!(
        catalog.resolve(&ParameterSelector::Auto("Mode".into())),
        Err(ResolveError::AmbiguousDisplayName { candidates, .. }) if candidates.len() == 2
    ));
    assert_eq!(
        catalog
            .resolve(&ParameterSelector::Oid(ParameterOid::String("Mode".into())))
            .unwrap()
            .display_name,
        "Other"
    );
    assert_eq!(
        catalog
            .resolve(&ParameterSelector::DisplayName("Mode".into()))
            .unwrap()
            .oid,
        ParameterOid::Numeric(2)
    );
}

#[test]
fn group_names_differing_only_by_case_are_ambiguous() {
    let mut catalog =
        DeviceCatalog::new(vec![parameter(ParameterOid::Numeric(1), "Parameter")]).unwrap();
    catalog.set_menus(
        vec![
            MenuGroup {
                index: 0,
                name: "STATUS".into(),
                menus: vec![menu(0, "Card", 1)],
            },
            MenuGroup {
                index: 1,
                name: "status".into(),
                menus: Vec::new(),
            },
        ],
        None,
        Vec::new(),
    );
    assert!(matches!(
        catalog.resolve_menu(Some("Status"), "Card"),
        Err(ResolveError::AmbiguousGroup { .. })
    ));
}

#[test]
fn menu_context_disambiguates_display_names() {
    let mut catalog = DeviceCatalog::new(vec![
        parameter(ParameterOid::Numeric(0x0500), "Colorspace"),
        parameter(ParameterOid::Numeric(0x0600), "Colorspace"),
    ])
    .unwrap();
    catalog.set_menus(
        vec![MenuGroup {
            index: 1,
            name: "CONFIGURATION".into(),
            menus: vec![
                Menu {
                    index: 0,
                    name: "SDI In 1".into(),
                    stable_id: 0x0100,
                    layout_url: None,
                    members: vec![ParameterOid::Numeric(0x0500)],
                },
                Menu {
                    index: 1,
                    name: "SDI In 2".into(),
                    stable_id: 0x0101,
                    layout_url: None,
                    members: vec![ParameterOid::Numeric(0x0600)],
                },
            ],
        }],
        None,
        Vec::new(),
    );
    let parameter = catalog
        .resolve_in_menu(
            None,
            "SDI In 1",
            &ParameterSelector::Auto("Colorspace".into()),
        )
        .unwrap();
    assert_eq!(parameter.oid, ParameterOid::Numeric(0x0500));
}

#[test]
fn menu_context_selects_members_among_duplicate_labels() {
    let mut catalog = DeviceCatalog::new(vec![
        parameter(ParameterOid::Numeric(0x1101), "Primary Mode"),
        parameter(ParameterOid::Numeric(0x1102), "Secondary Mode"),
        parameter(ParameterOid::Numeric(0x1201), "Primary Mode"),
        parameter(ParameterOid::Numeric(0x1202), "Secondary Mode"),
        parameter(ParameterOid::Numeric(0x1203), "Offset"),
        parameter(ParameterOid::Numeric(0x1303), "Offset"),
    ])
    .unwrap();
    catalog.set_menus(
        vec![MenuGroup {
            index: 1,
            name: "CONFIGURATION".into(),
            menus: vec![
                menu(0, "Menu Alpha", 0x1203),
                Menu {
                    index: 1,
                    name: "Menu Beta".into(),
                    stable_id: 1,
                    layout_url: None,
                    members: vec![
                        ParameterOid::Numeric(0x1201),
                        ParameterOid::Numeric(0x1202),
                        ParameterOid::Numeric(0x1303),
                    ],
                },
            ],
        }],
        None,
        Vec::new(),
    );

    assert!(matches!(
        catalog.resolve(&ParameterSelector::Auto("Primary Mode".into())),
        Err(ResolveError::AmbiguousDisplayName { .. })
    ));
    assert_eq!(
        catalog
            .resolve_in_menu(
                None,
                "Menu Beta",
                &ParameterSelector::Auto("Primary Mode".into()),
            )
            .unwrap()
            .oid,
        ParameterOid::Numeric(0x1201)
    );
    assert_eq!(
        catalog
            .resolve_in_menu(
                None,
                "Menu Beta",
                &ParameterSelector::Auto("Secondary Mode".into()),
            )
            .unwrap()
            .oid,
        ParameterOid::Numeric(0x1202)
    );
    assert_eq!(
        catalog
            .resolve_in_menu(
                None,
                "Menu Alpha",
                &ParameterSelector::Auto("Offset".into()),
            )
            .unwrap()
            .oid,
        ParameterOid::Numeric(0x1203)
    );
}

#[test]
fn duplicate_menu_names_require_a_group() {
    let mut catalog =
        DeviceCatalog::new(vec![parameter(ParameterOid::Numeric(1), "Parameter")]).unwrap();
    catalog.set_menus(
        vec![
            MenuGroup {
                index: 0,
                name: "STATUS".into(),
                menus: vec![menu(0, "Card", 1)],
            },
            MenuGroup {
                index: 1,
                name: "CONFIGURATION".into(),
                menus: vec![menu(0, "Card", 1)],
            },
        ],
        None,
        Vec::new(),
    );
    assert!(matches!(
        catalog.resolve_menu(None, "Card"),
        Err(ResolveError::AmbiguousMenu { .. })
    ));
    assert!(catalog.resolve_menu(Some("STATUS"), "Card").is_ok());
}

#[test]
fn direct_oid_resolution_does_not_require_menus() {
    let catalog =
        DeviceCatalog::new(vec![parameter(ParameterOid::Numeric(0x0105), "Product")]).unwrap();
    assert_eq!(
        catalog
            .resolve(&ParameterSelector::Oid(ParameterOid::Numeric(0x0105)))
            .unwrap()
            .display_name,
        "Product"
    );
}

#[test]
fn partial_menu_discovery_requires_a_complete_group_scope() {
    let mut catalog =
        DeviceCatalog::new(vec![parameter(ParameterOid::Numeric(1), "Parameter")]).unwrap();
    catalog.set_menus(
        vec![
            MenuGroup {
                index: 0,
                name: "STATUS".into(),
                menus: vec![menu(0, "Card", 1)],
            },
            MenuGroup {
                index: 1,
                name: "CONFIGURATION".into(),
                menus: Vec::new(),
            },
        ],
        Some("configuration menus failed".into()),
        vec![1],
    );
    assert!(matches!(
        catalog.resolve_menu(None, "Card"),
        Err(ResolveError::MenusUnavailable(_))
    ));
    assert!(catalog.resolve_menu(Some("STATUS"), "Card").is_ok());
}

#[test]
fn missing_group_name_blocks_even_qualified_resolution() {
    let mut catalog =
        DeviceCatalog::new(vec![parameter(ParameterOid::Numeric(1), "Parameter")]).unwrap();
    catalog.set_menus(
        vec![MenuGroup {
            index: 0,
            name: "STATUS".into(),
            menus: vec![menu(0, "Card", 1)],
        }],
        Some("menu group 1 could not be identified".into()),
        vec![1],
    );
    assert!(matches!(
        catalog.resolve_menu(Some("STATUS"), "Card"),
        Err(ResolveError::MenusUnavailable(_))
    ));
}

fn menu(index: u8, name: &str, oid: u16) -> Menu {
    Menu {
        index,
        name: name.into(),
        stable_id: index.into(),
        layout_url: None,
        members: vec![ParameterOid::Numeric(oid)],
    }
}

fn parameter(oid: ParameterOid, display_name: &str) -> Parameter {
    Parameter {
        oid,
        display_name: display_name.into(),
        parameter_type: ParameterType::Int16,
        access: Access::ReadWrite,
        precision: None,
        widget: Widget {
            value: 0,
            known_kind: None,
        },
        role: ParameterRole::Operational,
        set_semantics: SetSemantics::Value,
        constraint: Constraint::Unconstrained,
    }
}
