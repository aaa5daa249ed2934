use og_param::model::{
    Access, Constraint, KnownWidget, ParameterOid, ParameterRole, ParameterType, ParameterValue,
    SetSemantics,
};
use og_param::protocol::{
    descriptor_request, ensure_success, external_object_request, get_request, menu_group_request,
    menu_request, menu_string_oid_page_request, numeric_oid_page_request, parse_constraint,
    set_request, string_oid_page_request, ExternalObjectFragment, Frame, FrameDecoder,
    HandshakeResponse, MenuCount, MenuDescription, MenuGroupName, MenuNumericOids,
    MenuStringOidPage, NumericOidPage, ParameterCounts, ParameterResponse, ProtocolError,
    RawDescriptor, StringOidPage, GET_MENU_COUNT, GET_MENU_NAME,
};

fn frame(content: &[u8]) -> Frame {
    Frame { source: 0x11, destination: 0, message_type: 0x80, content: content.to_vec() }
}

#[test]
fn decoder_skips_noise_and_frames_that_are_too_large() {
    let good = get_request(0x11, &ParameterOid::Numeric(7)).unwrap();
    let bytes = good.encode().unwrap();
    let mut decoder = FrameDecoder::default();
    decoder.push(&[1, 2, 0xBA, 0xD2, 0xAC, 0, 9]);
    assert!(decoder.next_frame().unwrap().is_none());
    decoder.push(&bytes);
    assert_eq!(decoder.next_frame().unwrap().unwrap(), good);
    assert!(decoder.next_frame().unwrap().is_none());
    decoder.push(&[0xBA, 0xD2, 0xAC, 0xE5, 0, 0, 0, 0x20, 0x01]);
    decoder.push(&bytes);
    assert!(matches!(decoder.next_frame(), Err(ProtocolError::ContentTooLarge(8193))));
    assert_eq!(decoder.next_frame().unwrap().unwrap(), good);
}

#[test]
fn frames_are_decoded_one_byte_at_a_time() {
    let frames = [
        frame(&[]),
        frame(&[0xBA, 0xD2, 0xAC, 0xE5]),
        frame(&[9; 300]),
    ];
    let mut decoder = FrameDecoder::default();
    let mut decoded = Vec::new();
    for item in &frames {
        for byte in item.encode().unwrap() {
            decoder.push(&[byte]);
            if let Some(item) = decoder.next_frame().unwrap() {
                decoded.push(item);
            }
        }
    }
    assert_eq!(decoded, frames);
}

#[test]
fn content_has_a_limit() {
    assert!(frame(&[0; 8192]).encode().is_ok());
    let error = frame(&[0; 8193]).encode().unwrap_err();
    assert_eq!(error.to_string(), "OGP content is too large: 8193 bytes");
}

#[test]
fn requests_have_their_wire_form() {
    assert_eq!(numeric_oid_page_request(0x11, 0x0102, 3).content, [0, 1, 2, 3]);
    assert_eq!(string_oid_page_request(0x11, 0x01020304, 5).content, [0, 1, 2, 3, 4, 0, 5]);
    assert_eq!(external_object_request(0x11, 0x0102, 0x0304).content, [0, 1, 2, 3, 4]);
    assert_eq!(menu_group_request(0x11, GET_MENU_COUNT, 1).content, [0, 1]);
    assert_eq!(menu_request(0x11, GET_MENU_NAME, 1, 2).content, [0, 1, 2]);
    assert_eq!(
        menu_string_oid_page_request(0x11, 1, 2, 0x0304, 0x0506).content,
        [0, 1, 2, 3, 4, 5, 6]
    );
    let oid = ParameterOid::String("ab".into());
    let request = descriptor_request(0x12, &oid).unwrap();
    assert_eq!(request.content, [0, 3, b'a', b'b', 0]);
    assert_eq!((request.source, request.destination, request.message_type), (0, 0x12, 0x67));
    assert_eq!(set_request(0x11, &oid, &[7, 8]).unwrap().content, [0, 3, b'a', b'b', 0, 2, 7, 8]);
    assert_eq!(
        set_request(0x11, &ParameterOid::Numeric(1), &[0; 256]).unwrap_err().to_string(),
        "parameter value is too large: 256 bytes"
    );
    assert_eq!(
        get_request(0x11, &ParameterOid::String("a\0b".into())).unwrap_err().to_string(),
        "invalid OID contains a NUL byte"
    );
    let long = ParameterOid::String("a".repeat(255));
    assert_eq!(
        get_request(0x11, &long).unwrap_err().to_string(),
        "string OID is too long: 255 bytes"
    );
}

fn text<T>(result: Result<T, ProtocolError>) -> String {
    match result {
        Ok(_) => panic!("an error was expected"),
        Err(error) => error.to_string(),
    }
}

#[test]
fn return_codes_come_first() {
    assert!(ensure_success(&frame(&[0])).is_ok());
    assert_eq!(text(ensure_success(&frame(&[]))), "invalid OGP response: missing return code");
    assert_eq!(text(ensure_success(&frame(&[0x12]))), "remote returned OGP error 0x12");
    assert_eq!(text(MenuCount::parse(&frame(&[3, 1]))), "remote returned OGP error 0x03");
}

#[test]
fn malformed_responses_are_refused() {
    let invalid = |result: String, text: &str| {
        assert_eq!(result, format!("invalid OGP response: {text}"));
    };
    invalid(text(ParameterCounts::parse(&frame(&[0, 1]))), "parameter count is shorter than 3 bytes");
    invalid(
        text(ParameterCounts::parse(&frame(&[0, 0, 1, 1, 0, 0, 0, 0]))),
        "extended parameter count is truncated",
    );
    invalid(
        text(MenuGroupName::parse(&frame(&[0, 0, 0, 1]))),
        "menu group name response is too short",
    );
    invalid(
        text(MenuGroupName::parse(&frame(&[0, 0, 0, 3, b'A', 0]))),
        "menu group name length does not match",
    );
    invalid(
        text(MenuCount::parse(&frame(&[0, 0]))),
        "menu count response must contain 3 bytes",
    );
    invalid(
        text(MenuDescription::parse(&frame(&[0, 0, 0, 1]))),
        "menu name response is too short",
    );
    invalid(
        text(MenuDescription::parse(&frame(&[0, 0, 0, 9, b'A', 0]))),
        "menu name is truncated",
    );
    invalid(
        text(MenuDescription::parse(&frame(&[0, 0, 0, 2, b'A', 0, 1, 2, 9]))),
        "menu layout URL is truncated",
    );
    invalid(
        text(MenuDescription::parse(&frame(&[0, 0, 0, 2, b'A', 0, 1, 2, 0, 5]))),
        "menu name response has an invalid optional tail",
    );
    invalid(
        text(MenuNumericOids::parse(&frame(&[0, 0, 0]))),
        "menu OID response is too short",
    );
    invalid(
        text(MenuNumericOids::parse(&frame(&[0, 0, 0, 2, 1, 1]))),
        "menu OID response has an invalid length",
    );
    invalid(
        text(MenuStringOidPage::parse(&frame(&[0; 6]))),
        "menu string OID response is too short",
    );
    invalid(
        text(MenuStringOidPage::parse(&frame(&[0, 0, 0, 0, 0, 0, 129]))),
        "menu string OID response exceeds 128 entries",
    );
    invalid(
        text(MenuStringOidPage::parse(&frame(&[0, 0, 0, 0, 0, 0, 0, 1]))),
        "menu string OID response has trailing bytes",
    );
    invalid(
        text(NumericOidPage::parse(&frame(&[0, 0, 0]))),
        "numeric OID page is shorter than 4 bytes",
    );
    invalid(
        text(NumericOidPage::parse(&frame(&[0, 0, 0, 1]))),
        "numeric OID page has an invalid length",
    );
    invalid(
        text(StringOidPage::parse(&frame(&[0; 6]))),
        "string OID page is shorter than 7 bytes",
    );
    invalid(
        text(StringOidPage::parse(&frame(&[0, 0, 0, 0, 0, 1, 0]))),
        "string OID page exceeds 128 entries",
    );
    invalid(
        text(StringOidPage::parse(&frame(&[0, 0, 0, 0, 0, 0, 0, 9]))),
        "string OID page has trailing bytes",
    );
    invalid(
        text(ExternalObjectFragment::parse(&frame(&[0; 7]))),
        "external object fragment is too short",
    );
    invalid(
        text(ExternalObjectFragment::parse(&frame(&[0, 0, 0, 0, 0, 0, 0, 2, 1]))),
        "external object fragment length does not match",
    );
    let numeric = ParameterOid::Numeric(1);
    let string = ParameterOid::String("a".into());
    invalid(
        text(ParameterResponse::parse(&frame(&[0, 0, 1]), &numeric)),
        "numeric value response is too short",
    );
    invalid(
        text(ParameterResponse::parse(&frame(&[0, 0, 1, 2, 0]), &numeric)),
        "numeric value length does not match",
    );
    invalid(
        text(ParameterResponse::parse(&frame(&[0, 2, b'a']), &string)),
        "string-OID value response is too short",
    );
    invalid(
        text(ParameterResponse::parse(&frame(&[0, 2, b'a', 0]), &string)),
        "string-OID value response is truncated",
    );
    invalid(
        text(ParameterResponse::parse(&frame(&[0, 2, b'a', 0, 3, 1]), &string)),
        "string-OID value length does not match",
    );
    invalid(
        text(HandshakeResponse::parse(&frame(&[0, 0xFF, 0x03, 1, 0]))),
        "handshake value must contain 16-bit fields",
    );
    assert_eq!(
        text(ParameterResponse::parse(&frame(&[0, 0, 2, 0]), &numeric)),
        "unexpected OID: expected 0x0001, received 0x0002"
    );
    assert_eq!(
        text(MenuGroupName::parse(&frame(&[0, 0, 0, 2, b'A', b'B']))),
        "invalid menu group name"
    );
    assert_eq!(
        text(MenuGroupName::parse(&frame(&[0, 0, 0, 2, 0xFF, 0]))),
        "value is not valid UTF-8: invalid utf-8 sequence of 1 bytes from index 0"
    );
    assert_eq!(
        text(StringOidPage::parse(&frame(&[0, 0, 0, 0, 0, 0, 1, 3, b'a']))),
        "invalid string OID"
    );
}

#[test]
fn responses_are_parsed_with_their_optional_parts() {
    let counts = ParameterCounts::parse(&frame(&[0, 1, 2, 2, 9, 9, 1, 2, 3, 4])).unwrap();
    assert_eq!((counts.numeric, counts.string), (0x0102, 0x0102_0304));
    let menu = MenuDescription::parse(&frame(&[0, 1, 2, 2, b'A', 0])).unwrap();
    assert_eq!((menu.stable_id, menu.layout_url, menu.string_oid_count), (None, None, None));
    let menu = MenuDescription::parse(&frame(&[0, 1, 2, 2, b'A', 0, 0])).unwrap();
    assert_eq!((menu.stable_id, menu.layout_url), (None, None));
    let menu = MenuDescription::parse(&frame(&[0, 1, 2, 2, b'A', 0, 0, 7, 0])).unwrap();
    assert_eq!((menu.stable_id, menu.layout_url, menu.string_oid_count), (Some(7), None, None));
    assert!(MenuDescription::parse(&frame(&[0, 1, 2, 2, b'A', 0, 1])).is_err());
    let menu =
        MenuDescription::parse(&frame(&[0, 1, 2, 2, b'A', 0, 0, 7, 2, b'u', 0, 1, 0])).unwrap();
    assert_eq!(menu.stable_id, Some(7));
    assert_eq!(menu.layout_url.as_deref(), Some("u"));
    assert_eq!(menu.string_oid_count, Some(256));
    let fragment =
        ExternalObjectFragment::parse(&frame(&[0, 1, 2, 3, 4, 5, 6, 2, 7, 8])).unwrap();
    assert_eq!((fragment.oid, fragment.fragment, fragment.next), (0x0102, 0x0304, 0x0506));
    assert_eq!(fragment.data, [7, 8]);
    let handshake = HandshakeResponse::parse(&frame(&[0, 0xFF, 3, 4, 0, 0, 0, 5])).unwrap();
    assert_eq!(
        handshake,
        HandshakeResponse { allowed: false, urm_state: Some(5), refusal_reason: None }
    );
    let string = ParameterOid::String("a".into());
    let value = ParameterResponse::parse(&frame(&[0, 2, b'a', 0, 0, 1, 2, 3]), &string).unwrap();
    assert_eq!(value.value, [1, 2, 3]);
    let page = NumericOidPage::parse(&frame(&[0, 1, 0, 1, 2, 3])).unwrap();
    assert_eq!((page.first, page.oids), (256, vec![0x0203]));
}

fn descriptor(type_id: u8, size: u8, access: u8, precision: u8, widget: u8) -> RawDescriptor {
    RawDescriptor {
        oid: ParameterOid::Numeric(1),
        version: 2,
        type_id,
        size,
        access,
        precision,
        widget,
        display_name: "P".into(),
        constraint_type: 0,
        constraint_data: Vec::new(),
    }
}

#[test]
fn descriptors_become_parameters() {
    let kind = |type_id: u8, size: u8, precision: u8| {
        descriptor(type_id, size, 0, precision, 0).parameter_type()
    };
    assert_eq!(kind(2, 2, 0), ParameterType::Int16);
    assert_eq!(kind(4, 4, 0), ParameterType::Int32);
    assert_eq!(kind(6, 4, 0), ParameterType::Float32);
    assert_eq!(kind(7, 0, 0), ParameterType::String { max_bytes: None });
    assert_eq!(kind(7, 9, 0), ParameterType::String { max_bytes: Some(9) });
    assert_eq!(kind(12, 9, 0), ParameterType::Int16Array { length: Some(4) });
    assert_eq!(kind(14, 9, 0), ParameterType::Int32Array { length: Some(2) });
    assert_eq!(kind(16, 9, 0), ParameterType::Float32Array { length: Some(2) });
    assert_eq!(
        kind(17, 9, 5),
        ParameterType::StringArray { length: None, max_element_bytes: Some(5) }
    );
    assert_eq!(kind(18, 0, 0), ParameterType::Binary);
    assert_eq!(kind(99, 0, 0), ParameterType::Unsupported { type_id: 99 });

    let button = descriptor(2, 2, 1, 3, 12).into_parameter(Constraint::Unconstrained).unwrap();
    assert_eq!(button.access, Access::ReadWrite);
    assert_eq!(button.precision, Some(3));
    assert_eq!(button.set_semantics, SetSemantics::Trigger);
    assert_eq!(button.widget.known_kind, Some(KnownWidget::Button));
    let title = descriptor(7, 9, 0, 0, 13).into_parameter(Constraint::Unconstrained).unwrap();
    assert_eq!(title.role, ParameterRole::Layout);
    assert_eq!(title.set_semantics, SetSemantics::Value);
    let mut old = descriptor(2, 2, 0, 0, 11);
    old.version = 1;
    let old = old.into_parameter(Constraint::Unconstrained).unwrap();
    assert_eq!((old.widget.value, old.set_semantics), (0, SetSemantics::Value));
    assert_eq!(
        text(descriptor(2, 2, 2, 0, 0).into_parameter(Constraint::Unconstrained)),
        "invalid descriptor access value 2"
    );
}

#[test]
fn malformed_descriptors_are_refused() {
    let good = [0u8, 0, 1, 11, 2, 2, 2, 1, 0, 0, 2, b'A', 0, 0, 0];
    let oid = ParameterOid::Numeric(1);
    let parse = |content: &[u8]| RawDescriptor::parse(&frame(content), &oid);
    assert_eq!(parse(&good).unwrap().display_name, "A");
    let invalid = "invalid OGP response: ";
    assert_eq!(text(parse(&good[..12])), format!("{invalid}numeric descriptor is too short"));
    let mut bad = good;
    bad[3] = 12;
    assert_eq!(text(parse(&bad)), format!("{invalid}numeric descriptor length does not match"));
    bad = good;
    bad[10] = 9;
    assert_eq!(text(parse(&bad)), format!("{invalid}numeric descriptor name is truncated"));
    bad = good;
    bad[14] = 1;
    assert_eq!(text(parse(&bad)), format!("{invalid}numeric constraint length does not match"));
    bad = good;
    bad[4] = 3;
    assert_eq!(text(parse(&bad)), "unsupported descriptor version 3");
    bad = good;
    bad[2] = 2;
    assert_eq!(text(parse(&bad)), "unexpected OID: expected 0x0001, received 0x0002");
    bad = good;
    bad[12] = b'B';
    assert_eq!(text(parse(&bad)), "invalid parameter name");

    let good = [0u8, 2, b'a', 0, 2, 2, 2, 1, 0, 0, 2, b'A', 0, 0, 0, 1, 7];
    let oid = ParameterOid::String("a".into());
    let parse = |content: &[u8]| RawDescriptor::parse(&frame(content), &oid);
    assert_eq!(parse(&good).unwrap().constraint_data, [7]);
    assert_eq!(text(parse(&good[..12])), format!("{invalid}string descriptor is too short"));
    let mut bad = good;
    bad[1] = 9;
    assert_eq!(text(parse(&bad)), format!("{invalid}string descriptor OID is truncated"));
    bad = good;
    bad[10] = 9;
    assert_eq!(text(parse(&bad)), format!("{invalid}string descriptor name is truncated"));
    bad = good;
    bad[15] = 2;
    assert_eq!(text(parse(&bad)), format!("{invalid}string constraint length does not match"));
}

#[test]
fn constraints_are_parsed_by_their_form() {
    let int16 = ParameterType::Int16;
    assert_eq!(parse_constraint(0, &[], &int16).unwrap(), Constraint::Unconstrained);
    assert_eq!(
        parse_constraint(1, &[0xFF, 0xFF, 0, 5], &int16).unwrap(),
        Constraint::Range {
            minimum: ParameterValue::Int16 { value: -1 },
            maximum: ParameterValue::Int16 { value: 5 },
            display_minimum: None,
            display_maximum: None,
            step: None,
        }
    );
    assert_eq!(
        parse_constraint(5, &[0, 0, 0, 9, 0, 1, 0, 2, 0, 3], &int16).unwrap(),
        Constraint::Range {
            minimum: ParameterValue::Int16 { value: 0 },
            maximum: ParameterValue::Int16 { value: 9 },
            display_minimum: Some(ParameterValue::Int16 { value: 1 }),
            display_maximum: Some(ParameterValue::Int16 { value: 2 }),
            step: Some(ParameterValue::Int16 { value: 3 }),
        }
    );
    assert_eq!(
        parse_constraint(4, &[0, 1, 2, b'x', 0], &int16).unwrap(),
        Constraint::StringChoice { choices: vec!["x".into()], arbitrary_values_allowed: true }
    );
    assert!(matches!(
        parse_constraint(10, &[1, 31, 2, 2, b'x', 0], &ParameterType::Int32).unwrap(),
        Constraint::AlarmTable { alarms } if alarms[0].bit == 31 && alarms[0].severity_value == 2
    ));
    assert!(matches!(
        parse_constraint(11, &[0x70, 2], &int16).unwrap(),
        Constraint::External { object_id: 0x7002, .. }
    ));
    assert_eq!(
        parse_constraint(77, &[1], &int16).unwrap(),
        Constraint::Unsupported { type_id: 77 }
    );
    let float = parse_constraint(1, &[0x3F, 0x80, 0, 0, 0x40, 0, 0, 0], &ParameterType::Float32);
    assert!(matches!(
        float.unwrap(),
        Constraint::Range { minimum: ParameterValue::Float32 { value }, .. }
            if value.bits == 0x3F80_0000
    ));
}

#[test]
fn malformed_constraints_are_refused() {
    let int16 = ParameterType::Int16;
    let string = ParameterType::String { max_bytes: None };
    let cases: [(u8, &[u8], &ParameterType, &str); 18] = [
        (0, &[1], &int16, "null constraint has data"),
        (1, &[0], &int16, "range has an invalid length"),
        (1, &[0, 5, 0, 1], &int16, "range values are invalid"),
        (5, &[0, 0, 0, 9, 0, 0], &int16, "range values are invalid"),
        (
            1,
            &[],
            &string,
            "numeric constraint is attached to a non-numeric parameter",
        ),
        (
            1,
            &[0x7F, 0x80, 0, 0, 0x7F, 0x80, 0, 0],
            &ParameterType::Float32,
            "range values are invalid",
        ),
        (2, &[], &int16, "choice is missing its count"),
        (3, &[0], &int16, "extended choice is missing its count"),
        (2, &[1, 0], &int16, "choice value is truncated"),
        (2, &[0, 1], &int16, "choice has trailing bytes"),
        (4, &[0], &int16, "string choice is missing its count"),
        (4, &[0, 0, 1], &int16, "string choice has trailing bytes"),
        (10, &[0], &string, "alarm table is attached to a non-integer parameter"),
        (10, &[], &int16, "alarm table is missing its count"),
        (10, &[1, 0], &int16, "alarm entry is truncated"),
        (10, &[1, 16, 0, 1, 0], &int16, "alarm bit exceeds the parameter width"),
        (10, &[0, 0], &int16, "alarm table has trailing bytes"),
        (11, &[1], &int16, "external constraint must contain a 16-bit OID"),
    ];
    for (type_id, data, parameter_type, expected) in cases {
        assert_eq!(
            text(parse_constraint(type_id, data, parameter_type)),
            format!("invalid parameter constraint: {expected}")
        );
    }
    assert_eq!(text(parse_constraint(2, &[1, 0, 1, 2, b'x'], &int16)), "invalid choice name");
    assert_eq!(text(parse_constraint(10, &[1, 0, 0, 1], &int16)), "invalid alarm name");
    assert_eq!(
        text(og_param::protocol::external_constraint(&[0, 1, 11, 0, 7, 7], &int16)),
        "invalid parameter constraint: external constraint points to another external constraint"
    );
}

#[test]
fn cuts_in_the_stream_do_not_matter() {
    let sent = [frame(&[1, 2, 3]), frame(&[0xBA, 0xD2]), frame(&[])];
    let noise: [&[u8]; 3] = [&[7, 0xBA, 0xD2, 0xAC, 0, 0xBA], &[], &[0xBA, 0xD2]];
    let mut stream = Vec::new();
    for (bytes, item) in noise.iter().zip(&sent) {
        stream.extend_from_slice(bytes);
        stream.extend_from_slice(&item.encode().unwrap());
    }
    for size in 1..=stream.len() {
        let mut decoder = FrameDecoder::default();
        let mut received = Vec::new();
        for piece in stream.chunks(size) {
            decoder.push(piece);
            while let Some(item) = decoder.next_frame().unwrap() {
                received.push(item);
            }
        }
        assert_eq!(received, sent, "pieces of {size}");
    }
}
