//! The requests that a client sends.

use super::error::{ProtocolError, ProtocolErrorView};
use super::frame::{Frame, FrameView};
use crate::bytes::{be16_bytes, be32_bytes, contains_byte, push16, push32, push_bytes};
use crate::model::{OidView, ParameterOid};
use crate::views::result_view;
use vstd::prelude::*;
use vstd::string::*;
use vstd::utf8::*;

verus! {

pub const CLIENT_ADDRESS: u8 = 0x00;

pub const FRAME_CONTROLLER_ADDRESS: u8 = 0x10;

pub const GET_NUMPARAMS: u8 = 0x45;

pub const GET_PARAM_OIDS: u8 = 0x46;

pub const GET_DESCRIPTOR: u8 = 0x47;

pub const GET_PARAM: u8 = 0x49;

pub const SET_PARAM: u8 = 0x4A;

pub const GET_MENUSET_NAME: u8 = 0x50;

pub const GET_MENU_COUNT: u8 = 0x51;

pub const GET_MENU_NAME: u8 = 0x52;

pub const GET_MENU_OIDS: u8 = 0x53;

pub const GET_EXTERNAL_OBJECT: u8 = 0x59;

pub const GET_STRING_OIDS: u8 = 0x66;

pub const GET_STRING_DESCRIPTOR: u8 = 0x67;

pub const GET_STRING: u8 = 0x69;

pub const SET_STRING: u8 = 0x6A;

pub const GET_MENU_STRING_OIDS: u8 = 0x73;

pub const REPORT_PARAM: u8 = 0x10;

pub const REPORT_STRING: u8 = 0x14;

pub const RESPONSE_BIT: u8 = 0x80;

pub const CONNECTION_OID: u16 = 0xFF03;

/// A request of the client.
pub open spec fn request_of(destination: u8, message_type: u8, content: Seq<u8>) -> FrameView {
    FrameView { source: CLIENT_ADDRESS, destination, message_type, content }
}

fn request(destination: u8, message_type: u8, content: Vec<u8>) -> (r: Frame)
    ensures
        r@ == request_of(destination, message_type, content@),
{
    Frame { source: CLIENT_ADDRESS, destination, message_type, content }
}

/// Asks how many parameters there are, of both kinds of OID where `string_support` is set.
pub fn num_params_request(destination: u8, string_support: bool) -> (r: Frame)
    ensures
        r@ == request_of(
            destination,
            GET_NUMPARAMS,
            if string_support {
                seq![0u8, 1u8]
            } else {
                seq![0u8]
            },
        ),
{
    let content: Vec<u8> = if string_support {
        vec![0, 1]
    } else {
        vec![0]
    };
    proof {
        if string_support {
            assert(content@ =~= seq![0u8, 1u8]);
        } else {
            assert(content@ =~= seq![0u8]);
        }
    }
    request(destination, GET_NUMPARAMS, content)
}

/// Asks for `count` numeric OIDs from `first` on.
pub fn numeric_oid_page_request(destination: u8, first: u16, count: u8) -> (r: Frame)
    ensures
        r@ == request_of(
            destination,
            GET_PARAM_OIDS,
            seq![0u8] + be16_bytes(first) + seq![count],
        ),
{
    let mut content: Vec<u8> = vec![0];
    push16(&mut content, first);
    content.push(count);
    assert(content@ =~= seq![0u8] + be16_bytes(first) + seq![count]);
    request(destination, GET_PARAM_OIDS, content)
}

/// Asks for `count` string OIDs from `first` on.
pub fn string_oid_page_request(destination: u8, first: u32, count: u16) -> (r: Frame)
    ensures
        r@ == request_of(
            destination,
            GET_STRING_OIDS,
            seq![0u8] + be32_bytes(first) + be16_bytes(count),
        ),
{
    let mut content: Vec<u8> = vec![0];
    push32(&mut content, first);
    push16(&mut content, count);
    assert(content@ =~= seq![0u8] + be32_bytes(first) + be16_bytes(count));
    request(destination, GET_STRING_OIDS, content)
}

/// The start of a request about a string OID: its length with the final NUL, and its bytes with
/// that NUL.
pub open spec fn string_oid_bytes(oid: Seq<char>) -> Result<Seq<u8>, ProtocolErrorView> {
    let bytes = encode_utf8(oid);
    if bytes.contains(0) {
        Err(ProtocolErrorView::InvalidString("OID contains a NUL byte"@))
    } else if bytes.len() > 254 {
        Err(ProtocolErrorView::StringOidTooLong(bytes.len() as usize))
    } else {
        Ok(seq![0u8, (bytes.len() + 1) as u8] + bytes + seq![0u8])
    }
}

fn encode_string_oid(oid: &str) -> (r: Result<Vec<u8>, ProtocolError>)
    ensures
        result_view(r) == string_oid_bytes(oid@),
{
    let bytes = oid.as_bytes();
    if contains_byte(bytes, 0) {
        return Err(ProtocolError::InvalidString("OID contains a NUL byte"));
    }
    if bytes.len() > 254 {
        return Err(ProtocolError::StringOidTooLong(bytes.len()));
    }
    let mut content: Vec<u8> = vec![0, (bytes.len() + 1) as u8];
    push_bytes(&mut content, bytes);
    content.push(0);
    assert(content@ =~= seq![0u8, (bytes@.len() + 1) as u8] + bytes@ + seq![0u8]);
    Ok(content)
}

/// A request about one parameter, which has no more content than the OID: one message type for
/// numeric OIDs and one for string OIDs.
pub open spec fn oid_request(
    destination: u8,
    oid: OidView,
    numeric: u8,
    string: u8,
) -> Result<FrameView, ProtocolErrorView> {
    match oid {
        OidView::Numeric(oid) => Ok(
            request_of(destination, numeric, seq![0u8] + be16_bytes(oid)),
        ),
        OidView::String(oid) => match string_oid_bytes(oid) {
            Ok(content) => Ok(request_of(destination, string, content)),
            Err(error) => Err(error),
        },
    }
}

fn request_by_oid(destination: u8, oid: &ParameterOid, numeric: u8, string: u8) -> (r: Result<
    Frame,
    ProtocolError,
>)
    ensures
        result_view(r) == oid_request(destination, oid@, numeric, string),
{
    match oid {
        ParameterOid::Numeric(oid) => {
            let mut content: Vec<u8> = vec![0];
            push16(&mut content, *oid);
            assert(content@ =~= seq![0u8] + be16_bytes(*oid));
            Ok(request(destination, numeric, content))
        },
        ParameterOid::String(oid) => match encode_string_oid(oid) {
            Ok(content) => Ok(request(destination, string, content)),
            Err(error) => Err(error),
        },
    }
}

/// Asks what a parameter is.
pub fn descriptor_request(destination: u8, oid: &ParameterOid) -> (r: Result<Frame, ProtocolError>)
    ensures
        result_view(r) == oid_request(destination, oid@, GET_DESCRIPTOR, GET_STRING_DESCRIPTOR),
{
    request_by_oid(destination, oid, GET_DESCRIPTOR, GET_STRING_DESCRIPTOR)
}

/// Asks for the value of a parameter.
pub fn get_request(destination: u8, oid: &ParameterOid) -> (r: Result<Frame, ProtocolError>)
    ensures
        result_view(r) == oid_request(destination, oid@, GET_PARAM, GET_STRING),
{
    request_by_oid(destination, oid, GET_PARAM, GET_STRING)
}

/// The request that gives a parameter a value. The length of the value stands before it; for a
/// string OID it is zero where it does not fit in a byte.
pub open spec fn set_request_of(destination: u8, oid: OidView, value: Seq<u8>) -> Result<
    FrameView,
    ProtocolErrorView,
> {
    match oid {
        OidView::Numeric(oid) => if value.len() > 255 {
            Err(ProtocolErrorView::ParameterValueTooLarge(value.len() as usize))
        } else {
            Ok(
                request_of(
                    destination,
                    SET_PARAM,
                    seq![0u8] + be16_bytes(oid) + seq![value.len() as u8] + value,
                ),
            )
        },
        OidView::String(oid) => match string_oid_bytes(oid) {
            Ok(content) => Ok(
                request_of(
                    destination,
                    SET_STRING,
                    content + seq![
                        if value.len() > 255 {
                            0u8
                        } else {
                            value.len() as u8
                        },
                    ] + value,
                ),
            ),
            Err(error) => Err(error),
        },
    }
}

/// Gives a parameter a value.
pub fn set_request(destination: u8, oid: &ParameterOid, value: &[u8]) -> (r: Result<
    Frame,
    ProtocolError,
>)
    ensures
        result_view(r) == set_request_of(destination, oid@, value@),
{
    match oid {
        ParameterOid::Numeric(oid) => {
            if value.len() > 255 {
                return Err(ProtocolError::ParameterValueTooLarge(value.len()));
            }
            let mut content: Vec<u8> = vec![0];
            push16(&mut content, *oid);
            content.push(value.len() as u8);
            push_bytes(&mut content, value);
            assert(content@ =~= seq![0u8] + be16_bytes(*oid) + seq![value@.len() as u8] + value@);
            Ok(request(destination, SET_PARAM, content))
        },
        ParameterOid::String(oid) => {
            let mut content = match encode_string_oid(oid) {
                Ok(content) => content,
                Err(error) => return Err(error),
            };
            let ghost start = content@;
            let length: u8 = if value.len() > 255 {
                0
            } else {
                value.len() as u8
            };
            content.push(length);
            push_bytes(&mut content, value);
            assert(content@ =~= start + seq![length] + value@);
            Ok(request(destination, SET_STRING, content))
        },
    }
}

/// Asks for a fragment of an external object.
pub fn external_object_request(destination: u8, oid: u16, fragment: u16) -> (r: Frame)
    ensures
        r@ == request_of(
            destination,
            GET_EXTERNAL_OBJECT,
            seq![0u8] + be16_bytes(oid) + be16_bytes(fragment),
        ),
{
    let mut content: Vec<u8> = vec![0];
    push16(&mut content, oid);
    push16(&mut content, fragment);
    assert(content@ =~= seq![0u8] + be16_bytes(oid) + be16_bytes(fragment));
    request(destination, GET_EXTERNAL_OBJECT, content)
}

/// Asks about a menu group.
pub fn menu_group_request(destination: u8, message_type: u8, group: u8) -> (r: Frame)
    ensures
        r@ == request_of(destination, message_type, seq![0u8, group]),
{
    let content: Vec<u8> = vec![0, group];
    assert(content@ =~= seq![0u8, group]);
    request(destination, message_type, content)
}

/// Asks about a menu.
pub fn menu_request(destination: u8, message_type: u8, group: u8, menu: u8) -> (r: Frame)
    ensures
        r@ == request_of(destination, message_type, seq![0u8, group, menu]),
{
    let content: Vec<u8> = vec![0, group, menu];
    assert(content@ =~= seq![0u8, group, menu]);
    request(destination, message_type, content)
}

/// Asks for `count` string OIDs of a menu from `first` on.
pub fn menu_string_oid_page_request(
    destination: u8,
    group: u8,
    menu: u8,
    first: u16,
    count: u16,
) -> (r: Frame)
    ensures
        r@ == request_of(
            destination,
            GET_MENU_STRING_OIDS,
            seq![0u8, group, menu] + be16_bytes(first) + be16_bytes(count),
        ),
{
    let mut content: Vec<u8> = vec![0, group, menu];
    push16(&mut content, first);
    push16(&mut content, count);
    assert(content@ =~= seq![0u8, group, menu] + be16_bytes(first) + be16_bytes(count));
    request(destination, GET_MENU_STRING_OIDS, content)
}

/// The value that asks the frame controller for a connection.
pub open spec fn handshake_value(force: bool) -> Seq<u8> {
    be16_bytes(
        if force {
            1u16
        } else {
            0u16
        },
    ) + be16_bytes(0)
}

/// Asks the frame controller for a connection, over others where `force` is set.
pub fn handshake_request(force: bool) -> (r: Frame)
    ensures
        Ok::<FrameView, ProtocolErrorView>(r@) == set_request_of(
            FRAME_CONTROLLER_ADDRESS,
            OidView::Numeric(CONNECTION_OID),
            handshake_value(force),
        ),
{
    let mut content: Vec<u8> = vec![0];
    push16(&mut content, CONNECTION_OID);
    content.push(4);
    push16(
        &mut content,
        if force {
            1
        } else {
            0
        },
    );
    push16(&mut content, 0);
    assert(content@ =~= seq![0u8] + be16_bytes(CONNECTION_OID) + seq![4u8] + handshake_value(
        force,
    ));
    request(FRAME_CONTROLLER_ADDRESS, SET_PARAM, content)
}

} // verus!
