use og_param::model::{Constraint, ParameterOid, ParameterType, ParameterValue};
use og_param::protocol::{
    external_constraint, get_request, handshake_request, num_params_request, parse_constraint,
    set_request, Frame, FrameDecoder, MenuDescription, MenuNumericOids, MenuStringOidPage,
    ParameterCounts, ProtocolError, RawDescriptor, StringOidPage, GET_DESCRIPTOR, GET_MENU_NAME,
    GET_MENU_OIDS, GET_MENU_STRING_OIDS, GET_NUMPARAMS, GET_PARAM, GET_STRING_DESCRIPTOR,
    GET_STRING_OIDS, RESPONSE_BIT,
};

#[test]
fn decoder_handles_fragmented_and_coalesced_frames() {
    let first = get_request(0x11, &ParameterOid::Numeric(0x0105))
        .unwrap()
        .encode()
        .unwrap();
    let second = num_params_request(0x11, true).encode().unwrap();
    let mut decoder = FrameDecoder::default();
    decoder.push(&first[..5]);
    assert!(decoder.next_frame().unwrap().is_none());
    decoder.push(&[first[5..].as_ref(), second.as_ref()].concat());
    assert_eq!(
        decoder.next_frame().unwrap().unwrap().message_type,
        GET_PARAM
    );
    assert_eq!(
        decoder.next_frame().unwrap().unwrap().message_type,
        GET_NUMPARAMS
    );
}

#[test]
fn parses_numeric_choice_descriptor() {
    let frame = Frame {
        source: 0x11,
        destination: 0,
        message_type: GET_DESCRIPTOR | RESPONSE_BIT,
        content: vec![
            0, 0x01, 0x05, 28, 2, 2, 2, 1, 0, 7, 5, b'M', b'o', b'd', b'e', 0, 2, 14, 2, 0, 0,
            4, b'O', b'f', b'f', 0, 0, 1, 3, b'O', b'n', 0,
        ],
    };
    let descriptor = RawDescriptor::parse(&frame, &ParameterOid::Numeric(0x0105)).unwrap();
    let constraint = descriptor.inline_constraint().unwrap();
    assert!(matches!(constraint, Constraint::Choice { choices } if choices.len() == 2));
}

#[test]
fn parses_string_oid_page() {
    let frame = Frame {
        source: 0x11,
        destination: 0,
        message_type: GET_STRING_OIDS | RESPONSE_BIT,
        content: vec![
            0, 0, 0, 0, 0, 0, 2, 5, b'g', b'a', b'i', b'n', 0, 5, b'm', b'o', b'd', b'e', 0,
        ],
    };
    assert_eq!(StringOidPage::parse(&frame).unwrap().oids, ["gain", "mode"]);
}

#[test]
fn parses_extended_counts_and_string_descriptor() {
    let counts = Frame {
        source: 0x11,
        destination: 0,
        message_type: GET_NUMPARAMS | RESPONSE_BIT,
        content: vec![0, 0, 1, 0, 0, 0, 0, 1],
    };
    assert_eq!(
        ParameterCounts::parse(&counts).unwrap(),
        ParameterCounts {
            numeric: 1,
            string: 1
        }
    );

    let descriptor = Frame {
        source: 0x11,
        destination: 0,
        message_type: GET_STRING_DESCRIPTOR | RESPONSE_BIT,
        content: vec![
            0, 11, b'm', b'o', b'd', b'e', b'.', b'v', b'a', b'l', b'u', b'e', 0, 2, 2, 2, 1,
            0, 7, 5, b'M', b'o', b'd', b'e', 0, 0, 0, 0,
        ],
    };
    let oid = ParameterOid::String("mode.value".into());
    let descriptor = RawDescriptor::parse(&descriptor, &oid).unwrap();
    assert_eq!(descriptor.display_name, "Mode");
    assert_eq!(
        descriptor.inline_constraint().unwrap(),
        Constraint::Unconstrained
    );
}

#[test]
fn parses_external_extended_choices() {
    let bytes = [
        0, 1, 3, 0, 0, 2, 0, 0, 4, b'O', b'f', b'f', 0, 0, 1, 3, b'O', b'n', 0,
    ];
    let constraint = external_constraint(&bytes, &ParameterType::Int16).unwrap();
    assert!(
        matches!(constraint, Constraint::Choice { choices } if choices.len() == 2 && choices[1].display_name == "On")
    );
}

#[test]
fn treats_non_constraint_external_objects_as_unconstrained() {
    let constraint =
        external_constraint(&[0, 4, 4, 0x1F, 0x8B], &ParameterType::Int16).unwrap();
    assert_eq!(constraint, Constraint::Unconstrained);
}

#[test]
fn rejects_truncated_external_object_headers() {
    assert!(matches!(
        external_constraint(&[0], &ParameterType::Int16),
        Err(ProtocolError::InvalidResponse(
            "external object type is truncated"
        ))
    ));
    assert!(matches!(
        external_constraint(&[0, 1, 3], &ParameterType::Int16),
        Err(ProtocolError::InvalidResponse(
            "external constraint header is truncated"
        ))
    ));
}

#[test]
fn parses_constraints_for_array_elements() {
    let data = [1, 0, 1, 4, b'O', b'n', b'e', 0];
    let constraint =
        parse_constraint(2, &data, &ParameterType::Int16Array { length: Some(4) }).unwrap();
    assert!(
        matches!(constraint, Constraint::Choice { choices } if choices[0].value == ParameterValue::Int16 { value: 1 })
    );
}

#[test]
fn rejects_alarm_bits_outside_the_parameter_width() {
    let data = [1, 16, 2, 6, b'A', b'l', b'a', b'r', b'm', 0];
    assert!(parse_constraint(10, &data, &ParameterType::Int16).is_err());
}

#[test]
fn long_string_oid_sets_use_zero_length_marker() {
    let oid = ParameterOid::String("long.value".into());
    let value = vec![b'a'; 256];
    let frame = set_request(0x11, &oid, &value).unwrap();
    let oid_length = frame.content[1] as usize;
    assert_eq!(frame.content[2 + oid_length], 0);
    assert_eq!(&frame.content[3 + oid_length..], value);
}

#[test]
fn parses_menu_name_with_string_oid_metadata() {
    let frame = Frame {
        source: 0x11,
        destination: 0,
        message_type: GET_MENU_NAME | RESPONSE_BIT,
        content: vec![
            0, 1, 2, 9, b'S', b'D', b'I', b' ', b'I', b'n', b' ', b'1', 0, 0x12, 0x34, 0, 0, 2,
        ],
    };
    let menu = MenuDescription::parse(&frame).unwrap();
    assert_eq!(menu.name, "SDI In 1");
    assert_eq!(menu.stable_id, Some(0x1234));
    assert_eq!(menu.string_oid_count, Some(2));
}

#[test]
fn parses_numeric_and_string_menu_members() {
    let numeric = Frame {
        source: 0x11,
        destination: 0,
        message_type: GET_MENU_OIDS | RESPONSE_BIT,
        content: vec![0, 1, 0, 2, 0x05, 0x00, 0x05, 0x01],
    };
    assert_eq!(
        MenuNumericOids::parse(&numeric).unwrap().oids,
        [0x0500, 0x0501]
    );

    let strings = Frame {
        source: 0x11,
        destination: 0,
        message_type: GET_MENU_STRING_OIDS | RESPONSE_BIT,
        content: vec![
            0, 1, 0, 0, 0, 0, 2, 5, b'g', b'a', b'i', b'n', 0, 5, b'm', b'o', b'd', b'e', 0,
        ],
    };
    assert_eq!(
        MenuStringOidPage::parse(&strings).unwrap().oids,
        ["gain", "mode"]
    );
}

#[test]
fn forced_handshake_has_canonical_wire_bytes() {
    assert_eq!(
        handshake_request(true).encode().unwrap(),
        [
            0xBA, 0xD2, 0xAC, 0xE5, 0x00, 0x10, 0x4A, 0x00, 0x08, 0x00, 0xFF, 0x03, 0x04, 0x00,
            0x01, 0x00, 0x00,
        ]
    );
}
