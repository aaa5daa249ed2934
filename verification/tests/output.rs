use og_param::cli::command::{
    direct_oid, prepare_write, resolve_parameter, select_catalog, select_parameters,
};
use og_param::cli::error::{missing_value_error, resolution_error, visible_name, CliError};
use og_param::cli::guidance::{ambiguous_parameter_guidance, error_guidance};
use og_param::cli::info::{
    device_info, info_field_display, info_lines, record_info_result, InfoWarning,
};
use og_param::cli::output::{
    display_result, float_bits_text, parameter_table, result_line, special_float,
};
use og_param::client::{ClientError, ReadResult};
use og_param::csv_output::{
    access_name, current, legacy, menu_path_name, parameter_type_name, possible_values,
    possible_values_table, raw_value, CsvOutputError,
};
use og_param::model::{
    Access, ActiveAlarm, AlarmDefinition, AlarmDisplay, CatalogError, Choice, Constraint,
    DeviceCatalog, DisplayValue, Menu, MenuGroup, MenuGroupIdentity, MenuIdentity, MenuPath,
    Parameter, ParameterCandidate, ParameterOid, ParameterRole, ParameterSelector, ParameterType,
    ParameterValue, ResolveError, SetSemantics, Widget,
};
use og_param::number::Float32;
use og_param::value::ValueError;

fn parameter(oid: ParameterOid, display_name: &str) -> Parameter {
    Parameter {
        oid,
        display_name: display_name.into(),
        parameter_type: ParameterType::Int16,
        access: Access::ReadWrite,
        precision: None,
        widget: Widget { value: 0, known_kind: None },
        role: ParameterRole::Operational,
        set_semantics: SetSemantics::Value,
        constraint: Constraint::Unconstrained,
    }
}

fn int16(value: i16) -> ParameterValue {
    ParameterValue::Int16 { value }
}

fn choice(value: i16, display_name: &str) -> Choice {
    Choice { value: int16(value), display_name: display_name.into() }
}

fn menu(index: u8, name: &str, members: Vec<ParameterOid>) -> Menu {
    Menu { index, name: name.into(), stable_id: 0, layout_url: None, members }
}

fn catalog() -> DeviceCatalog {
    let mut mode = parameter(ParameterOid::Numeric(1), "Mode, \"main\"");
    mode.constraint = Constraint::Choice { choices: vec![choice(0, "Off"), choice(1, "On\nnow")] };
    let mut title = parameter(ParameterOid::String("card.title".into()), "");
    title.role = ParameterRole::Layout;
    title.parameter_type = ParameterType::String { max_bytes: None };
    title.access = Access::ReadOnly;
    let mut level = parameter(ParameterOid::Numeric(3), "Level");
    level.constraint = Constraint::Range {
        minimum: int16(-5),
        maximum: int16(5),
        display_minimum: None,
        display_maximum: None,
        step: Some(int16(1)),
    };
    let mut catalog = DeviceCatalog::new(vec![mode, title, level]).unwrap();
    catalog.set_menus(
        vec![
            MenuGroup {
                index: 0,
                name: "Status".into(),
                menus: vec![menu(0, "Card", vec![ParameterOid::Numeric(1)])],
            },
            MenuGroup {
                index: 1,
                name: "Setup".into(),
                menus: vec![
                    menu(0, "card", vec![ParameterOid::Numeric(1), ParameterOid::Numeric(9)]),
                    menu(1, "Audio", vec![ParameterOid::Numeric(3), ParameterOid::Numeric(3)]),
                ],
            },
        ],
        None,
        Vec::new(),
    );
    catalog
}

#[test]
fn current_values_are_quoted_where_they_must_be() {
    let output = String::from_utf8(current(&catalog()).unwrap()).unwrap();
    assert_eq!(
        output,
        "OID,Display Name,Menu,Type,Access,Role,Constraint,Possible Values\n\
         0x0001,\"Mode, \"\"main\"\"\",Card (Status) | card (Setup),int16,read_write,operational,\
         choice,\"Off=0 | On\nnow=1\"\n\
         card.title,,,string,read_only,layout,unconstrained,\n\
         0x0003,Level,Audio,int16,read_write,operational,range,-5..5 step 1\n"
    );
}

#[test]
fn legacy_values_leave_layout_out() {
    let output = String::from_utf8(legacy(&catalog()).unwrap()).unwrap();
    assert_eq!(
        output,
        "Parameter Name,Dashboard Parameter Name,Value Names\n\
         0x0001,\"Mode, \"\"main\"\"\",\n\
         ,, Off\n\
         ,,\" On\nnow\"\n\
         0x0003,Level,\n"
    );
}

#[test]
fn values_are_quoted_as_a_reader_expects() {
    let mut reader = csv::ReaderBuilder::new()
        .has_headers(false)
        .from_reader(std::io::Cursor::new(current(&catalog()).unwrap()));
    let records: Vec<csv::StringRecord> = reader.records().map(|record| record.unwrap()).collect();
    assert_eq!(records.len(), 4);
    assert_eq!(&records[1][1], "Mode, \"main\"");
    assert_eq!(&records[1][7], "Off=0 | On\nnow=1");
    assert_eq!(&records[2][1], "");
}

#[test]
fn long_values_are_written_in_full() {
    let name = "n\"".repeat(20_000);
    let catalog = DeviceCatalog::new(vec![parameter(ParameterOid::Numeric(1), &name)]).unwrap();
    let output = String::from_utf8(legacy(&catalog).unwrap()).unwrap();
    let quoted = name.replace('"', "\"\"");
    assert_eq!(
        output,
        format!(
            "Parameter Name,Dashboard Parameter Name,Value Names\n0x0001,\"{quoted}\",\n"
        )
    );
}

#[test]
fn names_of_types_and_values() {
    assert_eq!(parameter_type_name(&ParameterType::Float32), "float32");
    assert_eq!(parameter_type_name(&ParameterType::Int32Array { length: None }), "int32_array");
    assert_eq!(parameter_type_name(&ParameterType::Unsupported { type_id: 42 }), "type_42");
    assert_eq!(access_name(Access::ReadOnly), "read_only");
    assert_eq!(raw_value(&int16(-7)), "-7");
    let float = Float32 { bits: 0 };
    assert_eq!(raw_value(&ParameterValue::Float32 { value: float }), "0");
    let path = |group_required: bool| MenuPath {
        group: "G".into(),
        menu: "M".into(),
        group_required,
    };
    assert_eq!(menu_path_name(&path(true)), "M (G)");
    assert_eq!(menu_path_name(&path(false)), "M");
    let mut status = parameter(ParameterOid::Numeric(1), "S");
    status.constraint = Constraint::AlarmTable {
        alarms: vec![AlarmDefinition { bit: 3, name: "Fan".into(), severity_value: 1 }],
    };
    assert_eq!(possible_values(&status), ["Fan=bit 3"]);
    assert_eq!(
        possible_values_table(&status).unwrap(),
        "+-------+-----+\n| VALUE | BIT |\n+-------+-----+\n| Fan   | 3   |\n+-------+-----+"
    );
    assert_eq!(possible_values_table(&parameter(ParameterOid::Numeric(1), "P")), None);
    assert_eq!(
        CsvOutputError::Finalize("full".into()).to_string(),
        "failed to finalize CSV: full"
    );
}

#[test]
fn blank_labels_are_made_visible() {
    let mut mode = parameter(ParameterOid::Numeric(1), "Mode");
    mode.constraint = Constraint::StringChoice {
        choices: vec!["".into(), " a".into(), "b".into()],
        arbitrary_values_allowed: true,
    };
    assert_eq!(
        possible_values_table(&mode).unwrap(),
        "+---------+\n| VALUE   |\n+---------+\n| <empty> |\n| \" a\"    |\n| b       |\n+---------+"
    );
}

#[test]
fn tables_of_parameters_line_up() {
    let catalog = catalog();
    let all: Vec<&Parameter> = catalog.parameters.iter().collect();
    assert_eq!(
        parameter_table(&catalog, &all[1..]),
        "OID         DISPLAY NAME  MENU   TYPE    ACCESS\n\
         card.title  <unnamed>     -      string  read_only\n\
         0x0003  Level         Audio  int16   read_write\n\
         \u{20} Possible values:\n\
         \u{20}   +---------+---------+------+\n\
         \u{20}   | MINIMUM | MAXIMUM | STEP |\n\
         \u{20}   +---------+---------+------+\n\
         \u{20}   | -5      | 5       | 1    |\n\
         \u{20}   +---------+---------+------+\n"
    );
    assert_eq!(
        parameter_table(&catalog, &[]),
        "OID  DISPLAY NAME  MENU  TYPE  ACCESS\n"
    );
}

#[test]
fn listed_parameters_are_those_asked_for() {
    let catalog = catalog();
    let names = |result: Result<Vec<&Parameter>, ResolveError>| -> Vec<String> {
        result.unwrap().iter().map(|item| item.oid.to_string()).collect()
    };
    assert_eq!(
        names(select_parameters(&catalog, None, None, None, true)),
        ["0x0001", "0x0003"]
    );
    assert_eq!(
        names(select_parameters(&catalog, None, None, None, false)),
        ["0x0001", "card.title", "0x0003"]
    );
    assert_eq!(
        names(select_parameters(&catalog, None, Some("AUDIO"), None, true)),
        ["0x0003"]
    );
    assert_eq!(
        names(select_parameters(&catalog, Some("setup"), Some("CARD"), None, true)),
        ["0x0001"]
    );
    let selector = ParameterSelector::Auto("level".into());
    assert_eq!(
        names(select_parameters(&catalog, None, None, Some(&selector), true)),
        ["0x0003"]
    );
    assert!(matches!(
        select_parameters(&catalog, None, Some("Card"), None, true),
        Err(ResolveError::AmbiguousMenu { .. })
    ));
    let selected = select_parameters(&catalog, None, Some("Audio"), None, true).unwrap();
    let selection = select_catalog(&catalog, &selected).unwrap();
    assert_eq!(selection.parameters.len(), 1);
    assert_eq!(selection.menus, catalog.menus);
    let twice = [selected[0], selected[0]];
    assert!(matches!(
        select_catalog(&catalog, &twice),
        Err(CatalogError::DuplicateOid(ParameterOid::Numeric(3)))
    ));
}

#[test]
fn members_are_found_in_their_menu_alone() {
    let catalog = catalog();
    let oid = ParameterSelector::Oid(ParameterOid::Numeric(3));
    assert!(resolve_parameter(&catalog, None, Some("Audio"), &oid).is_ok());
    let error = resolve_parameter(&catalog, Some("Status"), Some("Card"), &oid).unwrap_err();
    assert_eq!(
        error.to_string(),
        "parameter \"oid:0x0003\" was not found in menu \"Card\""
    );
    let error = catalog.resolve_menu(Some("none"), "Card").unwrap_err();
    assert_eq!(error.to_string(), "menu \"Card\" was not found in group \"none\"");
    let error = catalog.resolve_menu(None, "none").unwrap_err();
    assert_eq!(error.to_string(), "menu \"none\" was not found");
    let error = catalog.resolve(&oid_selector(77)).unwrap_err();
    assert_eq!(error.to_string(), "parameter not found: oid:0x004D");
    let members = catalog.parameters_in_menu(&catalog.menus[1].menus[1]);
    assert_eq!(members.len(), 1);
}

fn oid_selector(oid: u16) -> ParameterSelector {
    ParameterSelector::Oid(ParameterOid::Numeric(oid))
}

#[test]
fn an_oid_alone_needs_no_discovery() {
    let oid = oid_selector(5);
    assert_eq!(direct_oid(None, None, &oid), Some(&ParameterOid::Numeric(5)));
    assert_eq!(direct_oid(None, Some("M"), &oid), None);
    assert_eq!(direct_oid(Some("G"), None, &oid), None);
    assert_eq!(direct_oid(None, None, &ParameterSelector::Auto("5".into())), None);
}

#[test]
fn values_to_write_are_prepared() {
    let mut mode = parameter(ParameterOid::Numeric(1), "Mode");
    assert_eq!(prepare_write(&mode, Some("7")).unwrap(), int16(7));
    let error = prepare_write(&mode, None).unwrap_err();
    assert_eq!(error.to_string(), "missing required argument <VALUE>");
    assert_eq!((error.kind(), error.exit_code()), ("usage", 2));
    let error = prepare_write(&mode, Some("x")).unwrap_err();
    assert_eq!((error.kind(), error.exit_code()), ("value", 4));
    mode.access = Access::ReadOnly;
    let error = prepare_write(&mode, None).unwrap_err();
    assert_eq!(error.to_string(), "parameter is read-only: 0x0001 (Mode)");
    assert_eq!((error.kind(), error.exit_code()), ("client", 5));
    mode.constraint = Constraint::Choice { choices: vec![choice(1, "On")] };
    assert_eq!(
        missing_value_error(&mode).to_string(),
        "missing required argument <VALUE>\npossible values:\n\
         +-------+-----------+\n| VALUE | RAW VALUE |\n+-------+-----------+\n\
         | On    | 1         |\n+-------+-----------+"
    );
}

#[test]
fn values_are_shown_for_people() {
    let label = |value: &str| DisplayValue::Label { value: value.into() };
    assert_eq!(display_result(&int16(3), None), "3");
    assert_eq!(display_result(&int16(3), Some(&label(""))), "<unnamed> (raw_value=3)");
    let aliases = DisplayValue::Aliases { values: vec!["A".into(), "".into()] };
    assert_eq!(display_result(&int16(3), Some(&aliases)), "A / <unnamed> (raw_value=3)");
    let alarms = |active: Vec<ActiveAlarm>, unknown_mask: u32| DisplayValue::Alarms {
        value: AlarmDisplay { active, unknown_mask },
    };
    assert_eq!(display_result(&int16(0), Some(&alarms(vec![], 0))), "No active alarms");
    let fan = ActiveAlarm { bit: 0, mask: 1, name: "Fan".into(), severity_value: 1 };
    assert_eq!(
        display_result(&int16(0), Some(&alarms(vec![fan], 0xBEEF))),
        "Fan, unknown bits 0xBEEF"
    );
    let identity = parameter(ParameterOid::Numeric(0x1203), "").identity();
    assert_eq!(result_line(&identity, &int16(3), None), "0x1203 (<unnamed>): 3");
    assert_eq!(visible_name("x"), "x");
}

#[test]
fn special_floats_have_names() {
    assert_eq!(special_float(f32::NAN.to_bits()), Some("nan"));
    assert_eq!(special_float(f32::INFINITY.to_bits()), Some("infinity"));
    assert_eq!(special_float(f32::NEG_INFINITY.to_bits()), Some("negative_infinity"));
    assert_eq!(special_float(f32::MAX.to_bits()), None);
    assert_eq!(float_bits_text(0x7FC0_000A), "0x7FC0000A");
}

#[test]
fn device_information_counts_parameters() {
    let mut warnings: Vec<InfoWarning> = Vec::new();
    let read = ReadResult {
        parameter: parameter(ParameterOid::Numeric(0x0105), "Product").identity(),
        value: ParameterValue::String { value: "Card".into() },
        display_value: None,
    };
    let product =
        record_info_result("Product", ParameterOid::Numeric(0x0105), Ok(read), &mut warnings);
    let serial = record_info_result(
        "Serial",
        ParameterOid::Numeric(0x0106),
        Err(ClientError::ConnectionClosed),
        &mut warnings,
    );
    let info = device_info(
        &catalog(),
        "host".into(),
        4,
        product,
        None,
        None,
        serial,
        warnings,
    );
    assert_eq!(
        info_lines(&info),
        [
            "Product:       Card",
            "Software:      unknown",
            "Supplier:      unknown",
            "Serial:        invalid",
            "Host:          host",
            "Slot:          4",
            "Parameters:    3",
            "Numeric OIDs:  2",
            "String OIDs:   1",
            "Warnings:",
            "  Serial (0x0106): connection closed before a complete response was received",
        ]
    );
    assert_eq!(info_field_display(&info, "Serial", Some("7")), "7");
}

#[test]
fn errors_have_kinds_and_codes() {
    let resolve = |error: ResolveError| CliError::Resolve(error);
    let cases = [
        (CliError::Usage("u".into()), "usage", 2),
        (resolve(ResolveError::NotFound("x".into())), "parameter_not_found", 4),
        (
            resolve(ResolveError::ParameterNotFoundInMenu { menu: "m".into(), selector: "s".into() }),
            "parameter_not_found",
            4,
        ),
        (
            resolve(ResolveError::MenuNotFound { group: None, menu: "m".into() }),
            "menu_not_found",
            4,
        ),
        (
            resolve(ResolveError::AmbiguousDisplayName { name: "n".into(), candidates: vec![] }),
            "ambiguous_parameter",
            4,
        ),
        (
            resolve(ResolveError::AmbiguousMenu { menu: "m".into(), candidates: vec![] }),
            "ambiguous_menu",
            4,
        ),
        (
            CliError::Client(ClientError::Resolve(ResolveError::AmbiguousGroup {
                group: "g".into(),
                candidates: vec![],
            })),
            "ambiguous_group",
            4,
        ),
        (resolve(ResolveError::MenusUnavailable("r".into())), "menu_unavailable", 4),
        (CliError::Client(ClientError::AuthenticationRequired), "authentication_required", 5),
        (CliError::Client(ClientError::ConnectionInUse), "connection_in_use", 5),
        (
            CliError::Client(ClientError::HandshakeRejected { reason: None }),
            "handshake_rejected",
            5,
        ),
        (CliError::Client(ClientError::Timeout { phase: "send" }), "timeout", 5),
        (
            CliError::Client(ClientError::Remote { code: 3, description: "request denied" }),
            "remote_error",
            5,
        ),
        (CliError::Client(ClientError::ConnectionClosed), "client", 5),
        (CliError::Value(ValueError::TypeMismatch), "value", 4),
        (CliError::Json("j".into()), "output", 6),
        (CliError::CsvOutput(CsvOutputError::Csv("c".into())), "output", 6),
        (CliError::Io("i".into()), "output", 6),
    ];
    for (error, kind, code) in cases {
        assert_eq!((error.kind(), error.exit_code()), (kind, code), "{error:?}");
    }
    assert_eq!(CliError::Client(ClientError::Timeout { phase: "send" }).to_string(), "send timed out");
    assert!(resolution_error(&CliError::Usage("u".into())).is_none());
}

fn candidate(oid: u16, paths: &[(&str, &str, bool)]) -> ParameterCandidate {
    ParameterCandidate {
        parameter: parameter(ParameterOid::Numeric(oid), "P").identity(),
        menus: paths
            .iter()
            .map(|(group, menu, group_required)| MenuPath {
                group: (*group).into(),
                menu: (*menu).into(),
                group_required: *group_required,
            })
            .collect(),
    }
}

#[test]
fn guidance_names_only_what_tells_candidates_apart() {
    let candidates = [
        candidate(1, &[("A", "Card", true), ("A", "In", false)]),
        candidate(2, &[("B", "Card", true), ("B", "in", false), ("B", "IN", false)]),
        candidate(3, &[]),
    ];
    assert_eq!(
        ambiguous_parameter_guidance(&candidates),
        "Disambiguate with a unique menu qualifier or OID:\n\
         \u{20} --menu \"Card\" --group \"A\"  (oid:0x0001)\n\
         \u{20} --menu \"Card\" --group \"B\"  (oid:0x0002)\n\
         \u{20} oid:0x0003  (P)\n\
         Or select directly with oid:<OID>."
    );
    assert_eq!(
        ambiguous_parameter_guidance(&candidates[2..]),
        "No unique menu qualifier identifies these parameters; select one by OID:\n\
         \u{20} oid:0x0003  P  [-]"
    );
}

#[test]
fn guidance_follows_the_error() {
    let menus = CliError::Resolve(ResolveError::AmbiguousMenu {
        menu: "Card".into(),
        candidates: vec![MenuIdentity {
            group: "A".into(),
            menu: "Card".into(),
            group_index: 0,
            menu_index: 1,
        }],
    });
    assert_eq!(error_guidance(&menus), ["Select the menu with --group:", "  A / Card"]);
    let groups = CliError::Resolve(ResolveError::AmbiguousGroup {
        group: "a".into(),
        candidates: vec![MenuGroupIdentity { group: "A".into(), group_index: 1 }],
    });
    assert_eq!(
        error_guidance(&groups),
        ["Menu groups differ only by case; select the parameter by OID:", "  group 1: A"]
    );
    let in_use = CliError::Client(ClientError::ConnectionInUse);
    assert_eq!(
        error_guidance(&in_use),
        ["Retry without --no-force to force the connection and disconnect another client."]
    );
    let ambiguous = CliError::Client(ClientError::Resolve(ResolveError::AmbiguousDisplayName {
        name: "P".into(),
        candidates: vec![candidate(3, &[])],
    }));
    assert_eq!(error_guidance(&ambiguous).len(), 1);
    assert!(error_guidance(&CliError::Usage("u".into())).is_empty());
}

#[test]
fn catalogs_refuse_duplicate_oids() {
    let error = DeviceCatalog::new(vec![
        parameter(ParameterOid::String("a".into()), "A"),
        parameter(ParameterOid::Numeric(2), "B"),
        parameter(ParameterOid::String("a".into()), "C"),
    ])
    .unwrap_err();
    assert_eq!(error.to_string(), "device returned duplicate OID a");
    let new = DeviceCatalog::new(Vec::new()).unwrap();
    let error = new.resolve_menu(None, "Card").unwrap_err();
    assert_eq!(
        error.to_string(),
        "menu metadata is unavailable: menu discovery was not performed"
    );
}

#[test]
fn an_advised_menu_selects_its_candidate() {
    let mut catalog = DeviceCatalog::new(vec![
        parameter(ParameterOid::Numeric(1), "Mode"),
        parameter(ParameterOid::Numeric(2), "MODE"),
        parameter(ParameterOid::Numeric(3), "mode"),
    ])
    .unwrap();
    catalog.set_menus(
        vec![
            MenuGroup {
                index: 0,
                name: "A".into(),
                menus: vec![menu(0, "In", vec![ParameterOid::Numeric(1)])],
            },
            MenuGroup {
                index: 1,
                name: "B".into(),
                menus: vec![
                    menu(0, "in", vec![ParameterOid::Numeric(2)]),
                    menu(1, "Out", vec![ParameterOid::Numeric(3)]),
                ],
            },
        ],
        None,
        Vec::new(),
    );
    let name = ParameterSelector::DisplayName("Mode".into());
    let error = catalog.resolve(&name).unwrap_err();
    let ResolveError::AmbiguousDisplayName { candidates, .. } = error else {
        panic!("the name is ambiguous");
    };
    assert_eq!(
        ambiguous_parameter_guidance(&candidates),
        "Disambiguate with a unique menu qualifier or OID:\n\
         \u{20} --menu \"In\" --group \"A\"  (oid:0x0001)\n\
         \u{20} --menu \"in\" --group \"B\"  (oid:0x0002)\n\
         \u{20} --menu \"Out\"  (oid:0x0003)\n\
         Or select directly with oid:<OID>."
    );
    let automatic = ParameterSelector::Auto("Mode".into());
    for (group, menu, oid) in [(Some("A"), "In", 1), (Some("B"), "in", 2), (None, "Out", 3)] {
        for selector in [&name, &automatic] {
            let found = catalog.resolve_in_menu(group, menu, selector).unwrap();
            assert_eq!(found.oid, ParameterOid::Numeric(oid));
        }
    }
}

#[test]
fn names_are_not_guessed() {
    let catalog = DeviceCatalog::new(vec![
        parameter(ParameterOid::Numeric(0x10), "0x0011"),
        parameter(ParameterOid::Numeric(0x11), "Other"),
    ])
    .unwrap();
    assert!(matches!(
        catalog.resolve(&ParameterSelector::Auto("0x0011".into())),
        Err(ResolveError::AmbiguousDisplayName { .. })
    ));
    let named = ParameterSelector::DisplayName("0x0011".into());
    assert_eq!(catalog.resolve(&named).unwrap().oid, ParameterOid::Numeric(0x10));
    assert_eq!(catalog.resolve(&oid_selector(0x11)).unwrap().display_name, "Other");
}

#[test]
fn advice_names_the_oid_of_every_candidate() {
    let shared = [
        candidate(0x1201, &[("A", "In", false)]),
        candidate(0x1202, &[("A", "in", false)]),
    ];
    let apart = [
        candidate(0x1201, &[("A", "In", false)]),
        candidate(0x1202, &[("A", "Out", false)]),
        candidate(0x1203, &[]),
    ];
    for list in [&shared[..], &apart[..]] {
        let text = ambiguous_parameter_guidance(list);
        for item in list {
            assert!(text.contains(&item.parameter.oid.to_string()));
        }
    }
}
