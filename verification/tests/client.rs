use og_param::client::{
    handshake_ask, handshake_reply, read_ask, read_reply, read_result, write_ask, write_reply,
    write_result, Ask, ClientError, Correlation, Discovery, Exchange, ExchangeAction,
    ExternalObjects, Fetch, Progress, Slot,
};
use og_param::model::{
    Access, Constraint, DeviceCatalog, DisplayValue, Parameter, ParameterOid, ParameterSelector,
    ParameterType, ParameterValue, SetSemantics,
};
use og_param::protocol::{
    Frame, CLIENT_ADDRESS, FRAME_CONTROLLER_ADDRESS, GET_DESCRIPTOR, GET_EXTERNAL_OBJECT,
    GET_MENUSET_NAME, GET_MENU_COUNT, GET_MENU_NAME, GET_MENU_OIDS, GET_MENU_STRING_OIDS,
    GET_NUMPARAMS, GET_PARAM, GET_PARAM_OIDS, GET_STRING_OIDS, REPORT_PARAM, RESPONSE_BIT,
    SET_PARAM,
};
use og_param::value::parse_text;

const ADDRESS: u8 = 0x11;

fn response(message_type: u8, content: Vec<u8>) -> Frame {
    Frame {
        source: ADDRESS,
        destination: CLIENT_ADDRESS,
        message_type: message_type | RESPONSE_BIT,
        content,
    }
}

fn numeric_descriptor(
    oid: u16,
    name: &str,
    access: u8,
    widget: u8,
    constraint_type: u8,
    constraint_data: &[u8],
) -> Vec<u8> {
    let mut content = vec![
        0,
        (oid >> 8) as u8,
        oid as u8,
        0,
        2,
        2,
        2,
        access,
        0,
        widget,
        u8::try_from(name.len() + 1).unwrap(),
    ];
    content.extend_from_slice(name.as_bytes());
    content.push(0);
    content.push(constraint_type);
    content.push(u8::try_from(constraint_data.len()).unwrap());
    content.extend_from_slice(constraint_data);
    content[3] = u8::try_from(content.len() - 4).unwrap();
    content
}

fn external_fragment(oid: u16, fragment: u16, next: u16, data: &[u8]) -> Vec<u8> {
    let mut content = vec![0];
    content.extend_from_slice(&oid.to_be_bytes());
    content.extend_from_slice(&fragment.to_be_bytes());
    content.extend_from_slice(&next.to_be_bytes());
    content.push(u8::try_from(data.len()).unwrap());
    content.extend_from_slice(data);
    content
}

/// Sends the request of `ask` through an exchange that first meets frames which do not answer it.
fn answer(ask: Ask, message_type: u8, content: &[u8], reply: Vec<u8>) -> Frame {
    answer_after(ask, message_type, content, &[], reply)
}

/// As `answer`, where the device first sends the responses `others`, which are passed over.
fn answer_after(
    ask: Ask,
    message_type: u8,
    content: &[u8],
    others: &[Vec<u8>],
    reply: Vec<u8>,
) -> Frame {
    assert_eq!(ask.request.message_type, message_type);
    assert_eq!(ask.request.content, content);
    let mut exchange = Exchange::new(ask);
    assert_eq!(exchange.action(), ExchangeAction::Send);
    exchange.sent();
    assert_eq!(exchange.action(), ExchangeAction::Receive);
    let mut report = response(message_type, reply.clone());
    report.message_type = REPORT_PARAM;
    assert!(exchange.received(report).is_none());
    let mut stranger = response(message_type, reply.clone());
    stranger.source = 0x12;
    assert!(exchange.received(stranger).is_none());
    for other in others {
        assert!(exchange.received(response(message_type, other.clone())).is_none());
    }
    exchange.received(response(message_type, reply)).expect("the answer is recognised")
}

fn describe(oid: u16, steps: &[(u8, Vec<u8>, Vec<u8>)]) -> Result<Parameter, ClientError> {
    let mut objects = ExternalObjects::new();
    let mut fetch = Fetch::Descriptor(ParameterOid::Numeric(oid));
    for (message_type, content, reply) in steps {
        let frame = answer(fetch.ask(ADDRESS)?, *message_type, content, reply.clone());
        match fetch.reply(&mut objects, &frame)? {
            Progress::More(next) => fetch = next,
            Progress::Done(parameter) => return Ok(parameter),
        }
    }
    panic!("the device was not asked enough");
}

fn discover(steps: &[(u8, Vec<u8>, Vec<u8>)]) -> Result<DeviceCatalog, ClientError> {
    discover_after(steps, &[], &[])
}

/// Discovers a device that sends the responses `others` before it answers requests `before`.
fn discover_after(
    steps: &[(u8, Vec<u8>, Vec<u8>)],
    before: &[u8],
    others: &[Vec<u8>],
) -> Result<DeviceCatalog, ClientError> {
    let mut discovery = Discovery::new();
    for (message_type, content, reply) in steps {
        let first = if before.contains(message_type) { others } else { &[] };
        let ask = discovery.ask(ADDRESS)?;
        let frame = answer_after(ask, *message_type, content, first, reply.clone());
        match discovery.event(Ok(frame))? {
            Progress::More(next) => discovery = next,
            Progress::Done(catalog) => return Ok(catalog),
        }
    }
    panic!("the device was not asked enough");
}

#[test]
fn non_forced_connection_refusal_reports_connections_in_use() {
    assert!(matches!(
        ClientError::handshake_rejected(false, Some(0)),
        ClientError::ConnectionInUse
    ));
    assert!(matches!(
        ClientError::handshake_rejected(true, Some(0)),
        ClientError::HandshakeRejected { reason: Some(0) }
    ));
}

#[test]
fn external_objects_distinguish_layout_data_from_constraints() {
    let parameter = describe(
        0x1200,
        &[
            (
                GET_DESCRIPTOR,
                vec![0, 0x12, 0x00],
                numeric_descriptor(0x1200, "Layout Metadata", 1, 2, 11, &[0x70, 0x01]),
            ),
            (
                GET_EXTERNAL_OBJECT,
                vec![0, 0x70, 0x01, 0, 0],
                vec![0, 0x70, 0x01, 0, 0, 0, 7, 5, 0, 4, 4, 0x1F, 0x8B],
            ),
        ],
    )
    .unwrap();
    assert!(matches!(
        parameter.constraint,
        Constraint::External {
            object_id: 0x7001,
            resolved,
        } if *resolved == Constraint::Unconstrained
    ));

    let first = [0, 1, 3, 0, 0, 2, 0];
    let remaining = [
        0, 5, b'I', b'd', b'l', b'e', 0, 0, 1, 7, b'A', b'c', b't', b'i', b'v', b'e', 0,
    ];
    let operating_mode = describe(
        0x1201,
        &[
            (
                GET_DESCRIPTOR,
                vec![0, 0x12, 0x01],
                numeric_descriptor(0x1201, "Operating Mode", 1, 7, 11, &[0x70, 0x02]),
            ),
            (
                GET_EXTERNAL_OBJECT,
                vec![0, 0x70, 0x02, 0, 0],
                external_fragment(0x7002, 0, 7, &first),
            ),
            (
                GET_EXTERNAL_OBJECT,
                vec![0, 0x70, 0x02, 0, 7],
                external_fragment(0x7002, 7, 0, &remaining),
            ),
        ],
    )
    .unwrap();
    let Constraint::External { resolved, .. } = &operating_mode.constraint else {
        panic!("expected an external constraint");
    };
    let Constraint::Choice { choices } = resolved.as_ref() else {
        panic!("expected a resolved choice constraint");
    };
    assert_eq!(choices.len(), 2);
    assert_eq!(choices[1].display_name, "Active");
}

#[test]
fn targeted_descriptors_support_choice_and_numeric_values() {
    let mode_choices = [
        2, 0, 0, 5, b'I', b'd', b'l', b'e', 0, 0, 1, 7, b'A', b'c', b't', b'i', b'v', b'e', 0,
    ];
    let read = |parameter: &Parameter, content: &[u8], reply: Vec<u8>| {
        let ask = read_ask(parameter, ADDRESS).unwrap();
        let frame = answer(ask, GET_PARAM, content, reply);
        read_reply(parameter, &frame).unwrap()
    };
    let write = |parameter: &Parameter, text: &str, content: &[u8], reply: Vec<u8>| {
        let value = parse_text(parameter, text).unwrap();
        let ask = write_ask(parameter, &value, ADDRESS).unwrap();
        let frame = answer(ask, SET_PARAM, content, reply);
        let actual = write_reply(parameter, &frame).unwrap();
        write_result(parameter, value, actual, None)
    };

    let primary_mode = describe(
        0x1201,
        &[(
            GET_DESCRIPTOR,
            vec![0, 0x12, 0x01],
            numeric_descriptor(0x1201, "Primary Mode", 1, 5, 2, &mode_choices),
        )],
    )
    .unwrap();
    assert_eq!(
        read(&primary_mode, &[0, 0x12, 0x01], vec![0, 0x12, 0x01, 2, 0, 0]),
        ParameterValue::Int16 { value: 0 }
    );
    let result = write(
        &primary_mode,
        "Active",
        &[0, 0x12, 0x01, 2, 0, 1],
        vec![0, 0x12, 0x01, 2, 0, 1],
    );
    assert_eq!(result.value, ParameterValue::Int16 { value: 1 });
    assert_eq!(result.requested_value, ParameterValue::Int16 { value: 1 });
    assert_eq!(
        result.display_value,
        Some(DisplayValue::Label { value: "Active".into() })
    );

    let secondary_mode = describe(
        0x1202,
        &[(
            GET_DESCRIPTOR,
            vec![0, 0x12, 0x02],
            numeric_descriptor(0x1202, "Secondary Mode", 1, 5, 2, &mode_choices),
        )],
    )
    .unwrap();
    assert_eq!(
        read(&secondary_mode, &[0, 0x12, 0x02], vec![0, 0x12, 0x02, 2, 0, 1]),
        ParameterValue::Int16 { value: 1 }
    );
    write(
        &secondary_mode,
        "Idle",
        &[0, 0x12, 0x02, 2, 0, 0],
        vec![0, 0x12, 0x02, 2, 0, 0],
    );

    let offset = describe(
        0x1203,
        &[(
            GET_DESCRIPTOR,
            vec![0, 0x12, 0x03],
            numeric_descriptor(0x1203, "Offset", 1, 9, 0, &[]),
        )],
    )
    .unwrap();
    assert_eq!(
        read(&offset, &[0, 0x12, 0x03], vec![0, 0x12, 0x03, 2, 1, 101]),
        ParameterValue::Int16 { value: 357 }
    );
    let result = write(
        &offset,
        "100",
        &[0, 0x12, 0x03, 2, 0, 100],
        vec![0, 0x12, 0x03, 2, 0, 100],
    );
    assert_eq!(result.value, ParameterValue::Int16 { value: 100 });
}

fn product_descriptor() -> Vec<u8> {
    vec![
        0, 0x01, 0x05, 17, 2, 7, 32, 0, 0, 1, 8, b'P', b'r', b'o', b'd', b'u', b'c', b't', 0, 0, 0,
    ]
}

#[test]
fn discovers_and_reads_a_numeric_parameter() {
    let ask = handshake_ask(true);
    assert_eq!(ask.request.message_type, SET_PARAM);
    assert_eq!(ask.request.destination, FRAME_CONTROLLER_ADDRESS);
    let reply = Frame {
        source: FRAME_CONTROLLER_ADDRESS,
        destination: CLIENT_ADDRESS,
        message_type: SET_PARAM | RESPONSE_BIT,
        content: vec![0, 0xFF, 0x03, 2, 0, 1],
    };
    assert!(ask.is_answered_by(&reply));
    handshake_reply(true, &reply).unwrap();

    let mut other_descriptor = product_descriptor();
    other_descriptor[2] = 0x04;
    let steps = [
        (GET_NUMPARAMS, vec![0, 1], vec![0, 0, 1]),
        (GET_PARAM_OIDS, vec![0, 0, 0, 1], vec![0, 0, 0, 1, 0x01, 0x05]),
        (GET_DESCRIPTOR, vec![0, 0x01, 0x05], product_descriptor()),
        (
            GET_MENUSET_NAME,
            vec![0, 0],
            vec![0, 0, 0, 7, b'S', b'T', b'A', b'T', b'U', b'S', 0],
        ),
        (GET_MENU_COUNT, vec![0, 0], vec![0, 0, 0]),
        (
            GET_MENUSET_NAME,
            vec![0, 1],
            vec![
                0, 1, 0, 14, b'C', b'O', b'N', b'F', b'I', b'G', b'U', b'R', b'A', b'T', b'I', b'O',
                b'N', 0,
            ],
        ),
        (GET_MENU_COUNT, vec![0, 1], vec![0, 1, 1]),
        (
            GET_MENU_NAME,
            vec![0, 1, 0],
            vec![0, 1, 0, 5, b'C', b'a', b'r', b'd', 0],
        ),
        (GET_MENU_OIDS, vec![0, 1, 0], vec![0, 1, 0, 1, 0x01, 0x05]),
    ];
    let catalog = discover_after(&steps, &[GET_DESCRIPTOR], &[other_descriptor]).unwrap();
    assert_eq!(catalog.parameters.len(), 1);
    assert_eq!(catalog.parameters[0].display_name, "Product");
    assert_eq!(catalog.menus[1].menus[0].name, "Card");
    assert_eq!(catalog.menus[1].menus[0].stable_id, 0x0100);
    assert_eq!(
        catalog
            .resolve_in_menu(None, "Card", &ParameterSelector::Auto("Product".into()))
            .unwrap()
            .oid,
        ParameterOid::Numeric(0x0105)
    );
    let parameter = catalog
        .resolve(&ParameterSelector::Oid(ParameterOid::Numeric(0x0105)))
        .unwrap();
    let ask = read_ask(parameter, ADDRESS).unwrap();
    let frame = answer(
        ask,
        GET_PARAM,
        &[0, 0x01, 0x05],
        vec![0, 0x01, 0x05, 5, b'C', b'a', b'r', b'd', 0],
    );
    let value = read_reply(parameter, &frame).unwrap();
    let result = read_result(parameter, value, None);
    assert_eq!(
        result.value,
        ParameterValue::String {
            value: "Card".into()
        }
    );
    assert_eq!(result.parameter.display_name, "Product");
    assert_eq!(result.display_value, None);
}

#[test]
fn answers_about_other_parameters_are_passed_over() {
    let fetch = Fetch::Descriptor(ParameterOid::Numeric(0x0105));
    let ask = fetch.ask(ADDRESS).unwrap();
    let mut other = product_descriptor();
    other[2] = 0x04;
    assert!(!ask.is_answered_by(&response(GET_DESCRIPTOR, other)));
    assert!(ask.is_answered_by(&response(GET_DESCRIPTOR, product_descriptor())));
}

#[test]
fn older_devices_are_asked_for_numeric_oids_alone() {
    let catalog = discover(&[
        (GET_NUMPARAMS, vec![0, 1], vec![2]),
        (GET_NUMPARAMS, vec![0], vec![0, 0, 0]),
        (GET_MENUSET_NAME, vec![0, 0], vec![1]),
        (GET_MENUSET_NAME, vec![0, 1], vec![0x11]),
    ])
    .unwrap();
    assert!(catalog.parameters.is_empty());
    assert!(catalog.menus.is_empty());
    assert_eq!(catalog.incomplete_menu_groups, [0, 1]);
    assert_eq!(
        catalog.menu_discovery_error.as_deref(),
        Some(
            "menu group 0: card returned OGP error 0x01: unsupported message; \
             menu group 1: card returned OGP error 0x11: parameter not found"
        )
    );
    assert!(matches!(
        discover(&[
            (GET_NUMPARAMS, vec![0, 1], vec![1]),
            (GET_NUMPARAMS, vec![0], vec![1]),
        ]),
        Err(ClientError::Remote { code: 1, .. })
    ));
}

#[test]
fn string_oids_and_their_menus_are_discovered() {
    let mut descriptor = vec![0, 5];
    descriptor.extend_from_slice(b"gain\0");
    descriptor.extend_from_slice(&[2, 4, 4, 1, 0, 3, 5]);
    descriptor.extend_from_slice(b"Gain\0");
    descriptor.extend_from_slice(&[0, 0, 0]);
    let catalog = discover(&[
        (GET_NUMPARAMS, vec![0, 1], vec![0, 0, 0, 0, 0, 0, 0, 1]),
        (
            GET_STRING_OIDS,
            vec![0, 0, 0, 0, 0, 0, 1],
            vec![0, 0, 0, 0, 0, 0, 1, 5, b'g', b'a', b'i', b'n', 0],
        ),
        (0x67, vec![0, 5, b'g', b'a', b'i', b'n', 0], descriptor),
        (GET_MENUSET_NAME, vec![0, 0], vec![0, 0, 0, 2, b'A', 0]),
        (GET_MENU_COUNT, vec![0, 0], vec![0, 0, 2]),
        (
            GET_MENU_NAME,
            vec![0, 0, 0],
            vec![0, 0, 0, 2, b'M', 0, 0x12, 0x34, 2, b'u', 0, 0, 1],
        ),
        (
            GET_MENU_STRING_OIDS,
            vec![0, 0, 0, 0, 0, 0, 1],
            vec![0, 0, 0, 0, 0, 0, 1, 5, b'g', b'a', b'i', b'n', 0],
        ),
        (GET_MENU_NAME, vec![0, 0, 1], vec![3]),
        (GET_MENUSET_NAME, vec![0, 1], vec![0, 1, 0, 2, b'B', 0]),
        (GET_MENU_COUNT, vec![0, 1], vec![0, 1, 0]),
    ])
    .unwrap();
    assert_eq!(catalog.parameters[0].oid, ParameterOid::String("gain".into()));
    assert_eq!(catalog.parameters[0].parameter_type, ParameterType::Int32);
    let menu = &catalog.menus[0].menus[0];
    assert_eq!(menu.stable_id, 0x1234);
    assert_eq!(menu.layout_url.as_deref(), Some("u"));
    assert_eq!(menu.members, [ParameterOid::String("gain".into())]);
    assert_eq!(catalog.incomplete_menu_groups, [0]);
    assert_eq!(
        catalog.menu_discovery_error.as_deref(),
        Some("menu group 0, menu 1: card returned OGP error 0x03: request denied")
    );
}

#[test]
fn unusable_discovery_answers_are_refused() {
    let text = |steps: &[(u8, Vec<u8>, Vec<u8>)]| discover(steps).unwrap_err().to_string();
    assert_eq!(
        text(&[(GET_NUMPARAMS, vec![0, 1], vec![0, 0, 1, 0, 0, 1, 0x86, 0xA0])]),
        "invalid device metadata: device parameter count exceeds the 100,000 parameter safety limit"
    );
    assert_eq!(
        text(&[
            (GET_NUMPARAMS, vec![0, 1], vec![0, 0, 1]),
            (GET_PARAM_OIDS, vec![0, 0, 0, 1], vec![0, 0, 0, 0]),
        ]),
        "invalid device metadata: device returned an invalid numeric OID page"
    );
    assert_eq!(
        text(&[
            (GET_NUMPARAMS, vec![0, 1], vec![0, 0, 0, 0, 0, 0, 0, 1]),
            (
                GET_STRING_OIDS,
                vec![0, 0, 0, 0, 0, 0, 1],
                vec![0, 0, 0, 0, 0, 0, 1, 4, b'a', b'.', b'1', 0],
            ),
        ]),
        "invalid device metadata: device returned an invalid string OID"
    );
    assert_eq!(
        text(&[
            (GET_NUMPARAMS, vec![0, 1], vec![0, 0, 0, 0, 0, 0, 0, 1]),
            (
                GET_STRING_OIDS,
                vec![0, 0, 0, 0, 0, 0, 1],
                vec![0, 0, 0, 0, 0, 0, 1, 3, b'4', b'2', 0],
            ),
        ]),
        "invalid device metadata: device returned a numeric value in its string OID table"
    );
    assert_eq!(
        text(&[
            (GET_NUMPARAMS, vec![0, 1], vec![0, 0, 2]),
            (GET_PARAM_OIDS, vec![0, 0, 0, 2], vec![0, 0, 0, 2, 1, 5, 1, 5]),
            (GET_DESCRIPTOR, vec![0, 0x01, 0x05], product_descriptor()),
            (GET_DESCRIPTOR, vec![0, 0x01, 0x05], product_descriptor()),
        ]),
        "device returned duplicate OID 0x0105"
    );
}

#[test]
fn long_pages_are_asked_for_in_parts() {
    let page = |first: u16, count: u16| {
        let mut content = vec![0];
        content.extend_from_slice(&first.to_be_bytes());
        content.push(count as u8);
        for oid in first..first + count {
            content.extend_from_slice(&oid.to_be_bytes());
        }
        content
    };
    let mut discovery = Discovery::new();
    let steps = [
        (GET_NUMPARAMS, vec![0, 1], vec![0, 0, 200]),
        (GET_PARAM_OIDS, vec![0, 0, 0, 128], page(0, 100)),
        (GET_PARAM_OIDS, vec![0, 0, 100, 100], page(100, 100)),
    ];
    for (message_type, content, reply) in steps {
        let frame = answer(discovery.ask(ADDRESS).unwrap(), message_type, &content, reply);
        let Progress::More(next) = discovery.event(Ok(frame)).unwrap() else {
            panic!("more is to come");
        };
        discovery = next;
    }
    assert_eq!(discovery.ask(ADDRESS).unwrap().request.message_type, GET_DESCRIPTOR);
}

#[test]
fn external_objects_have_limits() {
    let descriptor = (
        GET_DESCRIPTOR,
        vec![0, 0x12, 0x01],
        numeric_descriptor(0x1201, "Mode", 1, 7, 11, &[0x70, 0x02]),
    );
    let error = describe(
        0x1201,
        &[
            descriptor.clone(),
            (
                GET_EXTERNAL_OBJECT,
                vec![0, 0x70, 0x02, 0, 0],
                external_fragment(0x7002, 0, 5, &[0, 1]),
            ),
            (
                GET_EXTERNAL_OBJECT,
                vec![0, 0x70, 0x02, 0, 5],
                external_fragment(0x7002, 5, 5, &[3]),
            ),
            (GET_EXTERNAL_OBJECT, vec![], vec![]),
        ],
    )
    .unwrap_err();
    assert_eq!(
        error.to_string(),
        "invalid device metadata: external object contains a fragment loop"
    );

    let mut objects = ExternalObjects::new();
    let fetch = Fetch::Descriptor(ParameterOid::Numeric(0x1201));
    let frame = answer(fetch.ask(ADDRESS).unwrap(), descriptor.0, &descriptor.1, descriptor.2);
    let Ok(Progress::More(mut fetch)) = fetch.reply(&mut objects, &frame) else {
        panic!("the object is missing");
    };
    for fragment in 0..4096u16 {
        assert!(fetch.ask(ADDRESS).is_ok());
        let data: &[u8] = if fragment == 0 { &[0, 1] } else { &[] };
        let frame = response(
            GET_EXTERNAL_OBJECT,
            external_fragment(0x7002, fragment, fragment + 1, data),
        );
        let Ok(Progress::More(next)) = fetch.reply(&mut objects, &frame) else {
            panic!("more fragments follow");
        };
        fetch = next;
    }
    assert_eq!(
        fetch.ask(ADDRESS).unwrap_err().to_string(),
        "invalid device metadata: external object exceeds the fragment safety limit"
    );
}

#[test]
fn a_known_object_is_not_asked_for_again() {
    let mut objects = ExternalObjects::new();
    let content = numeric_descriptor(0x1201, "Mode", 1, 7, 11, &[0x70, 0x02]);
    let frame = response(GET_DESCRIPTOR, content.clone());
    let fetch = Fetch::Descriptor(ParameterOid::Numeric(0x1201));
    let Ok(Progress::More(fetch)) = fetch.reply(&mut objects, &frame) else {
        panic!("the object is missing");
    };
    let object = response(GET_EXTERNAL_OBJECT, external_fragment(0x7002, 0, 0, &[0, 4]));
    assert!(matches!(fetch.reply(&mut objects, &object), Ok(Progress::Done(_))));
    let fetch = Fetch::Descriptor(ParameterOid::Numeric(0x1201));
    assert!(matches!(fetch.reply(&mut objects, &frame), Ok(Progress::Done(_))));
}

#[test]
fn an_exchange_gives_up_after_its_attempts() {
    let ask = handshake_ask(false);
    assert_eq!(ask.request.content, [0, 0xFF, 0x03, 4, 0, 0, 0, 0]);
    let mut exchange = Exchange::new(ask);
    for _ in 0..3 {
        assert_eq!(exchange.action(), ExchangeAction::Send);
        exchange.sent();
        exchange.timed_out();
    }
    assert_eq!(exchange.action(), ExchangeAction::GiveUp);
    assert_eq!(exchange.failure().to_string(), "request timed out");
}

#[test]
fn actions_are_sent_once_and_read_only_parameters_never() {
    let mut parameter = describe(
        0x1201,
        &[(
            GET_DESCRIPTOR,
            vec![0, 0x12, 0x01],
            numeric_descriptor(0x1201, "Reset", 1, 11, 0, &[]),
        )],
    )
    .unwrap();
    let value = ParameterValue::Int16 { value: 1 };
    assert_eq!(parameter.set_semantics, SetSemantics::Trigger);
    assert_eq!(write_ask(&parameter, &value, ADDRESS).unwrap().attempts, 1);
    parameter.set_semantics = SetSemantics::Value;
    assert_eq!(write_ask(&parameter, &value, ADDRESS).unwrap().attempts, 3);
    parameter.access = Access::ReadOnly;
    assert_eq!(
        write_ask(&parameter, &value, ADDRESS).unwrap_err().to_string(),
        "parameter is read-only: 0x1201 (Reset)"
    );
    parameter.parameter_type = ParameterType::Binary;
    assert_eq!(
        read_ask(&parameter, ADDRESS).unwrap_err().to_string(),
        "parameter type is not supported at runtime: 0x1201 (Reset)"
    );
}

#[test]
fn an_echoed_write_reports_the_value() {
    let parameter = describe(
        0x1203,
        &[(
            GET_DESCRIPTOR,
            vec![0, 0x12, 0x03],
            numeric_descriptor(0x1203, "Offset", 1, 9, 0, &[]),
        )],
    )
    .unwrap();
    let value = ParameterValue::Int16 { value: -300 };
    let ask = write_ask(&parameter, &value, ADDRESS).unwrap();
    let echo = response(SET_PARAM, ask.request.content.clone());
    assert!(ask.is_answered_by(&echo));
    assert_eq!(write_reply(&parameter, &echo).unwrap(), value);
    assert_eq!(read_reply(&parameter, &echo).unwrap(), value);
}

#[test]
fn values_that_cannot_be_read_are_shown_as_bytes() {
    let parameter = describe(
        0x1203,
        &[(
            GET_DESCRIPTOR,
            vec![0, 0x12, 0x03],
            numeric_descriptor(0x1203, "Offset", 1, 9, 0, &[]),
        )],
    )
    .unwrap();
    let frame = response(GET_PARAM, vec![0, 0x12, 0x03, 3, 0xFF, 0, 0x0A]);
    assert_eq!(
        read_reply(&parameter, &frame).unwrap_err().to_string(),
        "invalid value returned for 0x1203 (Offset): expected 2 value bytes, received 3; \
         bytes: FF 00 0A"
    );
    assert_eq!(
        write_reply(&parameter, &frame).unwrap_err().to_string(),
        "expected 2 value bytes, received 3"
    );
    let refused = response(SET_PARAM, vec![0x14, 0x12, 0x03]);
    assert_eq!(
        write_reply(&parameter, &refused).unwrap_err().to_string(),
        "card returned OGP error 0x14: parameter locked"
    );
}

#[test]
fn handshakes_end_in_a_reason() {
    let reply = |value: &[u8]| {
        let mut content = vec![0, 0xFF, 0x03, value.len() as u8];
        content.extend_from_slice(value);
        response(SET_PARAM, content)
    };
    assert!(handshake_reply(false, &reply(&[0, 1])).is_ok());
    let text = |force: bool, value: &[u8]| {
        handshake_reply(force, &reply(value)).unwrap_err().to_string()
    };
    assert_eq!(text(false, &[0, 0]), "connection handshake was rejected (reason None)");
    assert_eq!(
        text(false, &[0, 0, 0, 9, 0, 0]),
        "connection refused because all available client connections are in use"
    );
    assert_eq!(
        text(true, &[0, 0, 0, 9, 0, 2]),
        "connection requires authentication, which is not supported"
    );
    assert_eq!(
        text(true, &[0, 0, 0, 9, 0, 7]),
        "connection handshake was rejected (reason Some(7))"
    );
    assert_eq!(
        text(true, &[0, 1, 2]),
        "invalid OGP response: handshake value must contain 16-bit fields"
    );
}

#[test]
fn failures_about_menus_are_recognised_without_their_indexes() {
    let frame = response(GET_MENU_NAME, vec![1]);
    assert!(Correlation::Menu(1, 2).matches(&frame));
    assert!(Correlation::MenuGroup(1).matches(&frame));
    assert!(!Correlation::NumericPage(0).matches(&frame));
    assert!(!Correlation::StringPage(0).matches(&frame));
    assert!(Correlation::Any.matches(&frame));
    let menu = response(GET_MENU_NAME, vec![0, 1, 2, 0, 9]);
    assert!(Correlation::Menu(1, 2).matches(&menu));
    assert!(!Correlation::Menu(1, 3).matches(&menu));
    assert!(Correlation::MenuStringPage { group: 1, menu: 2, first: 9 }.matches(&menu));
    assert!(!Correlation::MenuStringPage { group: 1, menu: 2, first: 8 }.matches(&menu));
    let text = response(0x69, vec![0, 3, b'a', b'b', 0, 0]);
    assert!(Correlation::Parameter(ParameterOid::String("ab".into())).matches(&text));
    assert!(!Correlation::Parameter(ParameterOid::String("ac".into())).matches(&text));
    assert!(!Correlation::Parameter(ParameterOid::String("a".into())).matches(&text));
    let object = response(GET_EXTERNAL_OBJECT, vec![0, 0x70, 1, 0, 7]);
    assert!(Correlation::ExternalObject { oid: 0x7001, fragment: 7 }.matches(&object));
    assert!(!Correlation::ExternalObject { oid: 0x7001, fragment: 8 }.matches(&object));
}

#[test]
fn slots_have_addresses() {
    assert_eq!(Slot::new(1).unwrap().address(), 0x11);
    assert_eq!(Slot::new(20).unwrap().get(), 20);
    assert_eq!(
        Slot::new(21).unwrap_err().to_string(),
        "slot must be between 1 and 20, received 21"
    );
}
