//! Laws of what goes over the wire: which bytes a request and a value are.

use crate::bytes::{be16, be16_bytes, be32, be32_bytes, law_utf8_round_trip};
use crate::catalog::MenuView;
use crate::client::access::{connected, connection_ask, read_ask_of, write_ask_of};
use crate::client::error::{refusal, ClientErrorView};
use crate::client::exchange::{is_answer, AskView, CorrelationView};
use crate::client::fetch::{fetch_ask, FetchView, Progress};
use crate::client::menus::{
    group_ask, menu_ask, menu_reply, new_group, new_menu, GroupFetchView, GroupStageView,
    MenuFetchView, MenuStageView,
};
use crate::client::oids::{
    menu_string_ask, menu_string_reply, numeric_ask, numeric_reply, string_ask, string_oids_of,
    string_reply, MenuStringOidsView, NumericOidsView, StringOidsView,
};
use crate::model::{
    parsed_oid, Access, OidView, ParameterType, ParameterView, SetSemantics, ValueView,
};
use crate::number::float_number;
use crate::protocol::error::ProtocolErrorView;
use crate::protocol::frame::{decoded, encoded_frame, undecoded, wire_bytes, FrameView};
use crate::protocol::request::handshake_value;
use crate::protocol::response::{
    parsed_handshake, parsed_menu, parsed_numeric_page, parsed_string_page, MenuDescriptionView,
    NumericOidPageView, StringOidPageView,
};
use crate::value::{allowed, decoded_value, encoded_value, ValueErrorView};
use vstd::prelude::*;
use vstd::utf8::*;

verus! {

/// Numbers go over the wire with the high byte first.
pub proof fn law_high_byte_comes_first(short: u16, long: u32, data: Seq<u8>, at: int)
    ensures
        be16_bytes(short).len() == 2,
        be16_bytes(short)[0] * 0x100 + be16_bytes(short)[1] == short,
        be32_bytes(long).len() == 4,
        be32_bytes(long)[0] * 0x100_0000 + be32_bytes(long)[1] * 0x1_0000 + be32_bytes(long)[2]
            * 0x100 + be32_bytes(long)[3] == long,
        be16(data, at) == data[at] * 0x100 + data[at + 1],
        be32(data, at) == data[at] * 0x100_0000 + data[at + 1] * 0x1_0000 + data[at + 2] * 0x100
            + data[at + 3],
{
    let a = long / 0x100_0000;
    let b = long / 0x1_0000;
    let c = long / 0x100;
    assert(b == 0x100 * a + b % 0x100);
    assert(c == 0x100 * b + c % 0x100);
    assert(long == 0x100 * c + long % 0x100);
}

/// Whether the bytes are a number in two's complement, high byte first.
pub open spec fn writes(bytes: Seq<u8>, value: int) -> bool {
    if bytes.len() == 2 {
        bytes[0] * 0x100 + bytes[1] == value || bytes[0] * 0x100 + bytes[1] == value + 0x1_0000
    } else {
        bytes.len() == 4 && {
            let n = bytes[0] * 0x100_0000 + bytes[1] * 0x1_0000 + bytes[2] * 0x100 + bytes[3];
            n == value || n == value + 0x1_0000_0000
        }
    }
}

/// An integer is sent in two's complement, a float as its bits, each with the high byte first, and
/// a text in UTF-8 with a final NUL.
pub proof fn law_bytes_of_a_value(parameter: ParameterView, value: ValueView)
    requires
        encoded_value(parameter, value) is Ok,
    ensures
        ({
            let bytes = encoded_value(parameter, value)->Ok_0;
            match value {
                ValueView::Int16 { value } => bytes.len() == 2 && writes(bytes, value as int),
                ValueView::Int32 { value } => bytes.len() == 4 && writes(bytes, value as int),
                ValueView::Float32 { value } => bytes.len() == 4 && writes(
                    bytes,
                    value.bits as int,
                ),
                ValueView::String { value } => bytes == encode_utf8(value) + seq![0u8]
                    && !encode_utf8(value).contains(0),
            }
        }),
{
    let bytes = encoded_value(parameter, value)->Ok_0;
    match value {
        ValueView::Int16 { value } => {
            law_high_byte_comes_first((value as int % 0x1_0000) as u16, 0, seq![], 0);
        },
        ValueView::Int32 { value } => {
            law_high_byte_comes_first(0, (value as int % 0x1_0000_0000) as u32, seq![], 0);
        },
        ValueView::Float32 { value } => {
            law_high_byte_comes_first(0, value.bits, seq![], 0);
        },
        ValueView::String { value } => {
            assert(bytes =~= encode_utf8(value) + seq![0u8]);
        },
    }
}

/// A value can be sent exactly where it is of the type of the parameter, its constraint allows it,
/// and, for a float, it is finite, or, for a text, it holds no NUL and is not too long.
pub proof fn law_value_can_be_sent(parameter: ParameterView, value: ValueView)
    ensures
        encoded_value(parameter, value) is Ok <==> {
            &&& allowed(parameter.constraint, value) is Ok
            &&& match (parameter.parameter_type, value) {
                (ParameterType::Int16, ValueView::Int16 { .. }) => true,
                (ParameterType::Int32, ValueView::Int32 { .. }) => true,
                (ParameterType::Float32, ValueView::Float32 { value }) => float_number(
                    value.bits,
                ) is Finite,
                (
                    ParameterType::String { max_bytes },
                    ValueView::String { value },
                ) => !encode_utf8(value).contains(0) && (max_bytes matches Some(limit)
                    ==> encode_utf8(value).len() <= limit),
                _ => false,
            }
        },
{
}

/// A number is read from as many bytes as its type has, and from no others; other types are not
/// read at all.
pub proof fn law_value_has_the_size_of_its_type(parameter_type: ParameterType, bytes: Seq<u8>)
    ensures
        match parameter_type {
            ParameterType::Int16 => if bytes.len() == 2 {
                decoded_value(parameter_type, bytes) matches Ok(ValueView::Int16 { value })
                    && writes(bytes, value as int)
            } else {
                decoded_value(parameter_type, bytes) == Err::<ValueView, _>(
                    ValueErrorView::InvalidLength {
                        expected: 2,
                        actual: bytes.len() as usize,
                    },
                )
            },
            ParameterType::Int32 => if bytes.len() == 4 {
                decoded_value(parameter_type, bytes) matches Ok(ValueView::Int32 { value })
                    && writes(bytes, value as int)
            } else {
                decoded_value(parameter_type, bytes) == Err::<ValueView, _>(
                    ValueErrorView::InvalidLength {
                        expected: 4,
                        actual: bytes.len() as usize,
                    },
                )
            },
            ParameterType::Float32 => if bytes.len() == 4 {
                decoded_value(parameter_type, bytes) matches Ok(ValueView::Float32 { value })
                    && writes(bytes, value.bits as int)
            } else {
                decoded_value(parameter_type, bytes) == Err::<ValueView, _>(
                    ValueErrorView::InvalidLength {
                        expected: 4,
                        actual: bytes.len() as usize,
                    },
                )
            },
            ParameterType::String { .. } => decoded_value(parameter_type, bytes) matches Ok(value)
                ==> value is String,
            _ => decoded_value(parameter_type, bytes) == Err::<ValueView, _>(
                ValueErrorView::UnsupportedType(parameter_type),
            ),
        },
{
}

/// A text is read from its UTF-8 with a final NUL, and from nothing else.
pub proof fn law_text_is_its_bytes(max_bytes: Option<u8>, bytes: Seq<u8>, text: Seq<char>)
    ensures
        decoded_value(ParameterType::String { max_bytes }, bytes) == Ok::<_, ValueErrorView>(
            ValueView::String { value: text },
        ) <==> bytes == encode_utf8(text) + seq![0u8] && !encode_utf8(text).contains(0),
{
    let body = bytes.drop_last();
    if decoded_value(ParameterType::String { max_bytes }, bytes) is Ok {
        decode_utf8_encode_utf8(body);
        let read = decoded_value(ParameterType::String { max_bytes }, bytes)->Ok_0->String_value;
        assert(bytes =~= encode_utf8(read) + seq![0u8]);
    }
    if bytes == encode_utf8(text) + seq![0u8] && !encode_utf8(text).contains(0) {
        assert(body =~= encode_utf8(text));
        law_utf8_round_trip(text);
    }
}

/// Whether a request of the client goes to `address`, is of the type for its kind of OID, and
/// holds the OID and then `rest`.
pub open spec fn is_about(
    request: FrameView,
    address: u8,
    numeric: u8,
    string: u8,
    oid: OidView,
    rest: Seq<u8>,
) -> bool {
    &&& request.source == 0
    &&& request.destination == address
    &&& match oid {
        OidView::Numeric(oid) => request.message_type == numeric && request.content == seq![
            0u8,
            (oid / 0x100) as u8,
            (oid % 0x100) as u8,
        ] + rest,
        OidView::String(oid) => request.message_type == string && request.content == seq![
            0u8,
            (encode_utf8(oid).len() + 1) as u8,
        ] + encode_utf8(oid) + seq![0u8] + rest,
    }
}

/// Whether an OID fits in a request.
pub open spec fn fits_in_a_request(oid: OidView) -> bool {
    oid matches OidView::String(text) ==> encode_utf8(text).len() <= 254 && !encode_utf8(
        text,
    ).contains(0)
}

/// The value of each parameter of a type that can be read is asked for by its OID, up to three
/// times; a parameter of another type is never asked for its value.
pub proof fn law_request_for_a_value(parameter: ParameterView, address: u8)
    ensures
        ({
            let supported = match parameter.parameter_type {
                ParameterType::Int16 => true,
                ParameterType::Int32 => true,
                ParameterType::Float32 => true,
                ParameterType::String { .. } => true,
                _ => false,
            };
            &&& read_ask_of(parameter, address) is Ok <==> supported && fits_in_a_request(
                parameter.oid,
            )
            &&& read_ask_of(parameter, address) matches Ok(ask) ==> ask.attempts == 3 && is_about(
                ask.request,
                address,
                0x49,
                0x69,
                parameter.oid,
                seq![],
            ) && ask.correlation == CorrelationView::Parameter(parameter.oid)
        }),
{
    if let Ok(ask) = read_ask_of(parameter, address) {
        assert(ask.request.content + Seq::<u8>::empty() =~= ask.request.content);
        lemma_request_content(parameter.oid, seq![]);
    }
}

proof fn lemma_request_content(oid: OidView, rest: Seq<u8>)
    ensures
        oid matches OidView::Numeric(n) ==> seq![0u8] + be16_bytes(n) + rest == seq![
            0u8,
            (n / 0x100) as u8,
            (n % 0x100) as u8,
        ] + rest,
        oid matches OidView::Numeric(n) ==> seq![0u8] + be16_bytes(n) == seq![
            0u8,
            (n / 0x100) as u8,
            (n % 0x100) as u8,
        ],
{
    if let OidView::Numeric(n) = oid {
        assert(seq![0u8] + be16_bytes(n) =~= seq![0u8, (n / 0x100) as u8, (n % 0x100) as u8]);
    }
}

/// What a parameter is is asked for by its OID, up to three times.
pub proof fn law_request_for_a_descriptor(oid: OidView, address: u8)
    ensures
        fetch_ask(FetchView::Descriptor(oid), address) is Ok <==> fits_in_a_request(oid),
        fetch_ask(FetchView::Descriptor(oid), address) matches Ok(ask) ==> ask.attempts == 3
            && is_about(ask.request, address, 0x47, 0x67, oid, seq![]) && ask.correlation
            == CorrelationView::Parameter(oid),
{
    if let Ok(ask) = fetch_ask(FetchView::Descriptor(oid), address) {
        assert(ask.request.content + Seq::<u8>::empty() =~= ask.request.content);
        lemma_request_content(oid, seq![]);
    }
}

/// A value is written to a parameter that may be written, where the value can be sent. The request
/// holds the OID, the length of the value and the value; it is sent up to three times, but once
/// where it sets off an action.
pub proof fn law_request_that_writes_a_value(
    parameter: ParameterView,
    value: ValueView,
    address: u8,
)
    ensures
        write_ask_of(parameter, value, address) matches Ok(ask) ==> {
            &&& parameter.access == Access::ReadWrite
            &&& encoded_value(parameter, value) matches Ok(bytes) && is_about(
                ask.request,
                address,
                0x4A,
                0x6A,
                parameter.oid,
                seq![
                    if bytes.len() > 255 {
                        0u8
                    } else {
                        bytes.len() as u8
                    },
                ] + bytes,
            )
            &&& ask.attempts == (if parameter.set_semantics == SetSemantics::Trigger {
                1int
            } else {
                3int
            })
            &&& ask.correlation == CorrelationView::Parameter(parameter.oid)
        },
        parameter.access == Access::ReadWrite && fits_in_a_request(parameter.oid) && (encoded_value(
            parameter,
            value,
        ) matches Ok(bytes) && (bytes.len() <= 255 || parameter.oid is String)) ==> write_ask_of(
            parameter,
            value,
            address,
        ) is Ok,
        encoded_value(parameter, value) matches Err(error) ==> (parameter.access
            == Access::ReadWrite ==> write_ask_of(parameter, value, address) == Err::<AskView, _>(
            ClientErrorView::Value(error),
        )),
{
    if let Ok(ask) = write_ask_of(parameter, value, address) {
        let bytes = encoded_value(parameter, value)->Ok_0;
        let length = seq![
            if bytes.len() > 255 {
                0u8
            } else {
                bytes.len() as u8
            },
        ];
        match parameter.oid {
            OidView::Numeric(n) => {
                lemma_request_content(parameter.oid, length + bytes);
                assert(ask.request.content =~= seq![0u8] + be16_bytes(n) + (length + bytes));
            },
            OidView::String(text) => {
                let start = seq![0u8, (encode_utf8(text).len() + 1) as u8] + encode_utf8(text)
                    + seq![0u8];
                assert(ask.request.content =~= start + (length + bytes));
            },
        }
    }
}

/// A frame answers a request where it comes from where the request went, to the client, with the
/// type of the request and the high bit, is no report, and repeats what was asked for: the OID, or
/// the number of a page, an object and its fragment, a group or a menu.
pub proof fn law_answer_is_to_the_request(ask: AskView, frame: FrameView)
    requires
        is_answer(ask, frame),
    ensures
        frame.source == ask.request.destination,
        frame.destination == 0,
        frame.message_type == ask.request.message_type | 0x80,
        frame.message_type != 0x10 && frame.message_type != 0x14,
        match ask.correlation {
            CorrelationView::Any => true,
            CorrelationView::Parameter(OidView::Numeric(oid)) => frame.content.len() >= 3
                && frame.content[1] * 0x100 + frame.content[2] == oid,
            CorrelationView::Parameter(OidView::String(oid)) => frame.content.len()
                >= encode_utf8(oid).len() + 3 && frame.content[1] == encode_utf8(oid).len() + 1
                && frame.content.subrange(2, encode_utf8(oid).len() as int + 2) == encode_utf8(oid),
            CorrelationView::NumericPage(first) => frame.content.len() >= 3 && frame.content[1]
                * 0x100 + frame.content[2] == first,
            CorrelationView::StringPage(first) => frame.content.len() >= 5 && frame.content[1]
                * 0x100_0000 + frame.content[2] * 0x1_0000 + frame.content[3] * 0x100
                + frame.content[4] == first,
            CorrelationView::ExternalObject { oid, fragment } => frame.content.len() >= 5
                && frame.content[1] * 0x100 + frame.content[2] == oid && frame.content[3] * 0x100
                + frame.content[4] == fragment,
            CorrelationView::MenuGroup(group) => frame.content.len() > 0 && frame.content[0] != 0
                || frame.content.len() >= 2 && frame.content[1] == group,
            CorrelationView::Menu(group, menu) => frame.content.len() > 0 && frame.content[0] != 0
                || frame.content.len() >= 3 && frame.content[1] == group && frame.content[2]
                == menu,
            CorrelationView::MenuStringPage { group, menu, first } => frame.content.len() > 0
                && frame.content[0] != 0 || frame.content.len() >= 5 && frame.content[1] == group
                && frame.content[2] == menu && frame.content[3] * 0x100 + frame.content[4] == first,
        },
{
}

/// A response to a request that repeats the OID that was asked for is never passed over, and
/// neither is the refusal of a request about menus.
pub proof fn law_answer_is_not_passed_over(ask: AskView, frame: FrameView)
    requires
        frame.source == ask.request.destination,
        frame.destination == 0,
        frame.message_type == ask.request.message_type | 0x80,
        match ask.correlation {
            CorrelationView::Any => true,
            CorrelationView::Parameter(OidView::Numeric(oid)) => frame.content.len() >= 3
                && frame.content[1] * 0x100 + frame.content[2] == oid,
            CorrelationView::MenuGroup(_) => frame.content.len() > 0 && frame.content[0] != 0,
            CorrelationView::Menu(_, _) => frame.content.len() > 0 && frame.content[0] != 0,
            CorrelationView::MenuStringPage { .. } => frame.content.len() > 0 && frame.content[0]
                != 0,
            _ => false,
        },
    ensures
        is_answer(ask, frame),
{
    let sent = ask.request.message_type;
    assert(sent | 0x80 >= 0x80) by (bit_vector);
}

/// A frame on the wire has four start bytes, its two addresses, its type, the length of its content
/// with the high byte first, and its content.
pub proof fn law_bytes_of_a_frame(frame: FrameView)
    requires
        frame.content.len() <= 0xFFFF,
    ensures
        ({
            let bytes = wire_bytes(frame);
            &&& bytes.len() == 9 + frame.content.len()
            &&& bytes[0] == 0xBA && bytes[1] == 0xD2 && bytes[2] == 0xAC && bytes[3] == 0xE5
            &&& bytes[4] == frame.source
            &&& bytes[5] == frame.destination
            &&& bytes[6] == frame.message_type
            &&& bytes[7] * 0x100 + bytes[8] == frame.content.len()
            &&& bytes.skip(9) == frame.content
        }),
{
    assert(wire_bytes(frame).skip(9) =~= frame.content);
}

/// Whether a request of the client is the one with the address, the type and the content.
pub open spec fn is_request(ask: AskView, address: u8, message_type: u8, content: Seq<u8>) -> bool {
    &&& ask.request.source == 0
    &&& ask.request.destination == address
    &&& ask.request.message_type == message_type
    &&& ask.request.content == content
    &&& ask.attempts == 3
}

/// Numeric OIDs are asked for from the first that is missing on, up to 128 at a time, until all
/// are known.
pub proof fn law_request_for_numeric_oids(oids: NumericOidsView, address: u8)
    requires
        oids.count <= 0xFFFF,
    ensures
        numeric_ask(oids, address) is None <==> oids.found.len() >= oids.count,
        numeric_ask(oids, address) matches Some(ask) ==> {
            let first = oids.found.len();
            let missing = oids.count - first;
            is_request(
                ask,
                address,
                0x46,
                seq![
                    0u8,
                    (first / 0x100) as u8,
                    (first % 0x100) as u8,
                    if missing < 128 {
                        missing as u8
                    } else {
                        128u8
                    },
                ],
            ) && ask.correlation == CorrelationView::NumericPage(first as u16)
        },
{
    if let Some(ask) = numeric_ask(oids, address) {
        let first = oids.found.len();
        let missing = oids.count - first;
        assert(ask.request.content =~= seq![
            0u8,
            (first / 0x100) as u8,
            (first % 0x100) as u8,
            if missing < 128 {
                missing as u8
            } else {
                128u8
            },
        ]);
    }
}

/// String OIDs are asked for from the first that is missing on, up to 128 at a time, until all are
/// known.
pub proof fn law_request_for_string_oids(oids: StringOidsView, address: u8)
    requires
        oids.count <= 0xFFFF_FFFF,
    ensures
        string_ask(oids, address) is None <==> oids.found.len() >= oids.count,
        string_ask(oids, address) matches Some(ask) ==> {
            let first = oids.found.len();
            let missing = oids.count - first;
            let content = ask.request.content;
            &&& is_request(ask, address, 0x66, content)
            &&& content.len() == 7
            &&& content[0] == 0
            &&& content[1] * 0x100_0000 + content[2] * 0x1_0000 + content[3] * 0x100 + content[4]
                == first
            &&& content[5] == 0
            &&& content[6] == (if missing < 128 {
                missing
            } else {
                128
            })
            &&& ask.correlation == CorrelationView::StringPage(first as u32)
        },
{
    if oids.found.len() < oids.count {
        law_high_byte_comes_first(0, oids.found.len() as u32, seq![], 0);
    }
}

/// The string OIDs of a menu are asked for from the first that is missing on, up to 128 at a time,
/// until all are known.
pub proof fn law_request_for_menu_string_oids(oids: MenuStringOidsView, address: u8)
    requires
        oids.count <= 0xFFFF,
    ensures
        menu_string_ask(oids, address) is None <==> oids.found.len() >= oids.count,
        menu_string_ask(oids, address) matches Some(ask) ==> {
            let first = oids.found.len();
            let missing = oids.count - first;
            is_request(
                ask,
                address,
                0x73,
                seq![
                    0u8,
                    oids.group,
                    oids.menu,
                    (first / 0x100) as u8,
                    (first % 0x100) as u8,
                    0u8,
                    if missing < 128 {
                        missing as u8
                    } else {
                        128u8
                    },
                ],
            ) && ask.correlation == (CorrelationView::MenuStringPage {
                group: oids.group,
                menu: oids.menu,
                first: first as u16,
            })
        },
{
    if let Some(ask) = menu_string_ask(oids, address) {
        let first = oids.found.len();
        let missing = oids.count - first;
        assert(ask.request.content =~= seq![
            0u8,
            oids.group,
            oids.menu,
            (first / 0x100) as u8,
            (first % 0x100) as u8,
            0u8,
            if missing < 128 {
                missing as u8
            } else {
                128u8
            },
        ]);
    }
}

/// A page of OIDs is taken where it starts with the first that is missing, and holds at least one
/// OID and no more than were asked for; nothing that is known is lost, and what is taken is put
/// behind it.
pub proof fn law_page_of_numeric_oids_is_taken(
    oids: NumericOidsView,
    content: Seq<u8>,
    page: NumericOidPageView,
)
    requires
        parsed_numeric_page(content) == Ok::<_, ProtocolErrorView>(page),
        oids.found.len() <= oids.count,
    ensures
        ({
            let missing = oids.count - oids.found.len();
            let fits = page.first == oids.found.len() && 0 < page.oids.len() <= 128
                && page.oids.len() <= missing;
            match numeric_reply(oids, content) {
                Ok(after) => fits && after.count == oids.count && after.found == oids.found
                    + page.oids,
                Err(_) => !fits,
            }
        }),
{
}

/// The same holds of a page of string OIDs, all of which must be string OIDs.
pub proof fn law_page_of_string_oids_is_taken(
    oids: StringOidsView,
    content: Seq<u8>,
    page: StringOidPageView,
)
    requires
        parsed_string_page(content) == Ok::<_, ProtocolErrorView>(page),
        oids.found.len() <= oids.count,
    ensures
        string_reply(oids, content) matches Ok(after) ==> {
            &&& page.first == oids.found.len()
            &&& 0 < page.oids.len() <= 128
            &&& page.oids.len() <= oids.count - oids.found.len()
            &&& after.count == oids.count
            &&& oids.found.is_prefix_of(after.found)
            &&& after.found.len() == oids.found.len() + page.oids.len()
            &&& forall|i: int|
                0 <= i < page.oids.len() ==> parsed_oid(#[trigger] page.oids[i]) == Ok::<
                    OidView,
                    Seq<char>,
                >(after.found[oids.found.len() + i]) && after.found[oids.found.len()
                    + i] is String
        },
{
    if let Ok(after) = string_reply(oids, content) {
        lemma_named_oids(
            page.oids,
            "device returned an invalid string OID"@,
            "device returned a numeric value in its string OID table"@,
        );
        let more = string_oids_of(
            page.oids,
            "device returned an invalid string OID"@,
            "device returned a numeric value in its string OID table"@,
        )->Ok_0;
        assert forall|i: int| 0 <= i < page.oids.len() implies parsed_oid(
            #[trigger] page.oids[i],
        ) == Ok::<OidView, Seq<char>>(after.found[oids.found.len() + i])
            && after.found[oids.found.len() + i] is String by {
            assert(after.found[oids.found.len() + i] == more[i]);
        }
    }
}

proof fn lemma_named_oids(texts: Seq<Seq<char>>, invalid: Seq<char>, numeric: Seq<char>)
    requires
        string_oids_of(texts, invalid, numeric) is Ok,
    ensures
        string_oids_of(texts, invalid, numeric)->Ok_0.len() == texts.len(),
        forall|i: int|
            0 <= i < texts.len() ==> parsed_oid(#[trigger] texts[i]) == Ok::<OidView, Seq<char>>(
                string_oids_of(texts, invalid, numeric)->Ok_0[i],
            ) && string_oids_of(texts, invalid, numeric)->Ok_0[i] is String,
    decreases texts.len(),
{
    if texts.len() > 0 {
        let front = texts.drop_last();
        lemma_named_oids(front, invalid, numeric);
        let all = string_oids_of(texts, invalid, numeric)->Ok_0;
        assert forall|i: int| 0 <= i < texts.len() implies parsed_oid(#[trigger] texts[i]) == Ok::<
            OidView,
            Seq<char>,
        >(all[i]) && all[i] is String by {
            if i < front.len() {
                assert(texts[i] == front[i]);
            }
        }
    }
}

/// Menus and groups are asked for by their numbers: a group by its name and its count of menus, and
/// a menu by its name and then its members.
pub proof fn law_requests_for_menus(
    group: u8,
    name: Seq<char>,
    menu: u8,
    description: MenuDescriptionView,
    address: u8,
)
    ensures
        group_ask(new_group(group), address) matches Some(ask) && is_request(
            ask,
            address,
            0x50,
            seq![0u8, group],
        ) && ask.correlation == CorrelationView::MenuGroup(group),
        group_ask(
            GroupFetchView { group, stage: GroupStageView::Count(name) },
            address,
        ) matches Some(ask) && is_request(ask, address, 0x51, seq![0u8, group]) && ask.correlation
            == CorrelationView::MenuGroup(group),
        menu_ask(new_menu(group, menu), address) matches Some(ask) && is_request(
            ask,
            address,
            0x52,
            seq![0u8, group, menu],
        ) && ask.correlation == CorrelationView::Menu(group, menu),
        menu_ask(
            MenuFetchView { group, menu, stage: MenuStageView::Numbers(description) },
            address,
        ) matches Some(ask) && is_request(ask, address, 0x53, seq![0u8, group, menu])
            && ask.correlation == CorrelationView::Menu(group, menu),
{
}

/// A menu with string members is asked for those, and found once all of them are known.
pub proof fn law_menu_with_string_members(
    menu: MenuFetchView,
    content: Seq<u8>,
    description: MenuDescriptionView,
)
    requires
        menu.stage is Name,
        parsed_menu(content) == Ok::<_, ProtocolErrorView>(description),
    ensures
        match menu_reply(menu, content) {
            Err(_) => description.group != menu.group || description.menu != menu.menu,
            Ok(Progress::Done(_)) => false,
            Ok(Progress::More(after)) => description.group == menu.group && description.menu
                == menu.menu && after.group == menu.group && after.menu == menu.menu && match (
                description.string_oid_count,
                after.stage,
            ) {
                (Some(count), MenuStageView::Strings(kept, oids)) => count > 0 && kept
                    == description && oids.group == menu.group && oids.menu == menu.menu
                    && oids.count == count && oids.found.len() == 0,
                (count, MenuStageView::Numbers(kept)) => kept == description && (count is None
                    || count == Some(0u16)),
                _ => false,
            },
        },
{
}

/// The members of a menu with string members are all those that came, in order.
pub proof fn law_string_members_are_kept(
    menu: MenuFetchView,
    description: MenuDescriptionView,
    oids: MenuStringOidsView,
    content: Seq<u8>,
    after: MenuStringOidsView,
)
    requires
        menu.stage == MenuStageView::Strings(description, oids),
        menu_string_reply(oids, content) == Ok::<_, ClientErrorView>(after),
    ensures
        after.found.len() < after.count ==> menu_reply(menu, content) == Ok::<_, ClientErrorView>(
            Progress::<MenuFetchView, MenuView>::More(
                MenuFetchView {
                    group: menu.group,
                    menu: menu.menu,
                    stage: MenuStageView::Strings(description, after),
                },
            ),
        ),
        after.found.len() >= after.count ==> (menu_reply(menu, content) matches Ok(
            Progress::Done(found),
        ) && found.members == after.found && found.name == description.name && found.index
            == menu.menu && found.layout_url == description.layout_url),
        oids.found.is_prefix_of(after.found),
{
}

/// A connection that is refused is told apart by the reason: others hold it, where they were not to
/// be displaced, or it needs a password, or another.
pub proof fn law_refused_connection(force: bool, reason: Option<u16>)
    ensures
        refusal(force, reason) == ClientErrorView::ConnectionInUse <==> reason == Some(0u16)
            && !force,
        refusal(force, reason) == ClientErrorView::AuthenticationRequired <==> reason == Some(2u16),
        reason != Some(2u16) && (reason != Some(0u16) || force) ==> refusal(force, reason) == (
        ClientErrorView::HandshakeRejected { reason }),
        handshake_value(force) == seq![
            0u8,
            if force {
                1u8
            } else {
                0u8
            },
            0u8,
            0u8,
        ],
{
    assert(handshake_value(force) =~= seq![
        0u8,
        if force {
            1u8
        } else {
            0u8
        },
        0u8,
        0u8,
    ]);
}

/// The frame controller is asked for a connection by the parameter 0xFF03, up to three times.
pub proof fn law_request_for_a_connection(force: bool)
    ensures
        connection_ask(force) matches Ok(ask) && is_request(
            ask,
            0x10,
            0x4A,
            seq![
                0u8,
                0xFFu8,
                0x03u8,
                4u8,
                0u8,
                if force {
                    1u8
                } else {
                    0u8
                },
                0u8,
                0u8,
            ],
        ),
{
    law_refused_connection(force, None);
    let ask = connection_ask(force)->Ok_0;
    assert(ask.request.content =~= seq![
        0u8,
        0xFFu8,
        0x03u8,
        4u8,
        0u8,
        if force {
            1u8
        } else {
            0u8
        },
        0u8,
        0u8,
    ]);
}

/// A connection is given where the answer is about the connection and its first number is not zero,
/// and only there; a refusal ends with the reason that the answer gives.
pub proof fn law_connection_is_given(force: bool, content: Seq<u8>)
    ensures
        connected(force, content) is Ok ==> content.len() >= 6 && content[0] == 0 && content[1]
            == 0xFF && content[2] == 3 && content[4] * 0x100 + content[5] != 0,
        parsed_handshake(content) matches Ok(answer) ==> if answer.allowed {
            connected(force, content) is Ok
        } else {
            connected(force, content) == Err::<(), _>(refusal(force, answer.refusal_reason))
        },
{
}

/// A frame can be sent where its content has no more than 8192 bytes.
pub proof fn law_size_of_a_frame(frame: FrameView)
    ensures
        frame.content.len() <= 8192 ==> encoded_frame(frame) == Ok::<_, ProtocolErrorView>(
            wire_bytes(frame),
        ),
        frame.content.len() > 8192 ==> encoded_frame(frame) == Err::<Seq<u8>, _>(
            ProtocolErrorView::ContentTooLarge(frame.content.len() as usize),
        ),
{
}

/// A frame that says it has more than 8192 bytes is refused as soon as that is known, and what
/// follows its start bytes is searched for the next frame.
pub proof fn law_too_large_frame_is_refused(bytes: Seq<u8>)
    requires
        bytes.len() >= 9,
        bytes[0] == 0xBA,
        bytes[1] == 0xD2,
        bytes[2] == 0xAC,
        bytes[3] == 0xE5,
        bytes[7] * 0x100 + bytes[8] > 8192,
    ensures
        decoded(bytes) == Err::<Option<FrameView>, _>(
            ProtocolErrorView::ContentTooLarge((bytes[7] * 0x100 + bytes[8]) as usize),
        ),
        undecoded(bytes) == bytes.skip(4),
{
    assert(bytes.subrange(0, 4) =~= seq![0xBAu8, 0xD2u8, 0xACu8, 0xE5u8]);
}

/// A frame that is received has the addresses, the type and the content that stand in its bytes.
pub proof fn law_received_frame(bytes: Seq<u8>)
    requires
        bytes.len() >= 9,
        bytes[0] == 0xBA,
        bytes[1] == 0xD2,
        bytes[2] == 0xAC,
        bytes[3] == 0xE5,
        bytes[7] * 0x100 + bytes[8] <= 8192,
    ensures
        ({
            let end = 9 + bytes[7] * 0x100 + bytes[8];
            if bytes.len() < end {
                decoded(bytes) == Ok::<_, ProtocolErrorView>(None::<FrameView>) && undecoded(bytes)
                    == bytes
            } else {
                decoded(bytes) matches Ok(Some(frame)) && frame.source == bytes[4]
                    && frame.destination == bytes[5] && frame.message_type == bytes[6]
                    && frame.content == bytes.subrange(9, end) && undecoded(bytes) == bytes.skip(
                    end,
                )
            }
        }),
{
    assert(bytes.subrange(0, 4) =~= seq![0xBAu8, 0xD2u8, 0xACu8, 0xE5u8]);
}

/// A value that cannot be sent is refused with the first thing that is wrong with it: its type, what
/// the constraint says, and then what cannot be put into bytes.
pub proof fn law_why_a_value_cannot_be_sent(parameter: ParameterView, value: ValueView)
    ensures
        ({
            let fits = match (parameter.parameter_type, value) {
                (ParameterType::Int16, ValueView::Int16 { .. }) => true,
                (ParameterType::Int32, ValueView::Int32 { .. }) => true,
                (ParameterType::Float32, ValueView::Float32 { .. }) => true,
                (ParameterType::String { .. }, ValueView::String { .. }) => true,
                _ => false,
            };
            let sent = encoded_value(parameter, value);
            &&& !fits ==> sent == Err::<Seq<u8>, _>(ValueErrorView::TypeMismatch)
            &&& fits ==> (allowed(parameter.constraint, value) matches Err(error) ==> sent == Err::<
                Seq<u8>,
                _,
            >(error))
            &&& fits && allowed(parameter.constraint, value) is Ok ==> match value {
                ValueView::Float32 { value } => !(float_number(value.bits) is Finite) ==> sent
                    == Err::<Seq<u8>, _>(ValueErrorView::NonFiniteFloat),
                ValueView::String { value } => {
                    let bytes = encode_utf8(value);
                    &&& bytes.contains(0) ==> sent == Err::<Seq<u8>, _>(ValueErrorView::EmbeddedNul)
                    &&& !bytes.contains(0) ==> (
                    parameter.parameter_type matches ParameterType::String { max_bytes: Some(limit) }
                        ==> (bytes.len() > limit ==> sent == Err::<Seq<u8>, _>(
                        ValueErrorView::StringTooLong {
                            maximum: limit as usize,
                            actual: bytes.len() as usize,
                        },
                    )))
                },
                _ => sent is Ok,
            }
        }),
{
}

/// A text that cannot be read is refused with what is wrong with its bytes: no final NUL, another
/// NUL before it, or bytes that are not UTF-8.
pub proof fn law_why_a_text_cannot_be_read(max_bytes: Option<u8>, bytes: Seq<u8>)
    ensures
        ({
            let read = decoded_value(ParameterType::String { max_bytes }, bytes);
            &&& bytes.len() == 0 || bytes[bytes.len() - 1] != 0 ==> read == Err::<ValueView, _>(
                ValueErrorView::UnterminatedString,
            )
            &&& bytes.len() > 0 && bytes[bytes.len() - 1] == 0 && bytes.take(
                bytes.len() - 1,
            ).contains(0) ==> read == Err::<ValueView, _>(ValueErrorView::EmbeddedNul)
            &&& bytes.len() > 0 && bytes[bytes.len() - 1] == 0 && !bytes.take(
                bytes.len() - 1,
            ).contains(0) ==> (read is Ok <==> valid_utf8(bytes.take(bytes.len() - 1)))
        }),
{
    if bytes.len() > 0 {
        assert(bytes.drop_last() =~= bytes.take(bytes.len() - 1));
    }
}

} // verus!
