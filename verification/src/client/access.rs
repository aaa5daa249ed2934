//! Connecting to a device, and reading and writing one parameter.

use super::error::{answered, refusal, ClientError, ClientErrorView};
use super::exchange::{Ask, AskView, Correlation, ATTEMPTS, TRIGGER_SET_ATTEMPTS};
use super::fetch::parameter_ask;
use crate::catalog::identity_of;
use crate::model::{
    alarms_fit, interpreted, resolved, value_bits, Access, DisplayNumber, DisplayNumberView,
    DisplayValue, DisplayView,
    IdentityView, OidView, Parameter, ParameterIdentity, ParameterOid, ParameterType,
    ParameterValue, ParameterView, SetSemantics, ValueView,
};
use crate::protocol::frame::Frame;
use crate::protocol::request::{
    get_request, handshake_request, handshake_value, oid_request, set_request, set_request_of,
    CONNECTION_OID, FRAME_CONTROLLER_ADDRESS, GET_PARAM, GET_STRING,
};
use crate::protocol::response::{
    parsed_handshake, parsed_value, HandshakeResponse, ParameterResponse,
};
use crate::text::{hex, join, joined, push_hex};
use crate::value::{decode, decoded_value, encode, encoded_value};
use crate::views::{option_view, result_view, views};
use vstd::prelude::*;
use vstd::string::*;

verus! {

/// The request for a connection.
pub open spec fn connection_ask(force: bool) -> Result<AskView, ClientErrorView> {
    parameter_ask(
        set_request_of(
            FRAME_CONTROLLER_ADDRESS,
            OidView::Numeric(CONNECTION_OID),
            handshake_value(force),
        ),
        ATTEMPTS,
        OidView::Numeric(CONNECTION_OID),
    )
}

/// The request for a connection.
pub fn handshake_ask(force: bool) -> (r: Ask)
    ensures
        connection_ask(force) == Ok::<_, ClientErrorView>(r@),
{
    Ask {
        request: handshake_request(force),
        attempts: ATTEMPTS,
        correlation: Correlation::Parameter(ParameterOid::Numeric(CONNECTION_OID)),
    }
}

/// Whether the response to the request for a connection allows it.
pub open spec fn connected(force: bool, content: Seq<u8>) -> Result<(), ClientErrorView> {
    match answered(parsed_handshake(content)) {
        Err(error) => Err(error),
        Ok(response) => if response.allowed {
            Ok(())
        } else {
            Err(refusal(force, response.refusal_reason))
        },
    }
}

/// Whether the response to the request for a connection allows it.
pub fn handshake_reply(force: bool, frame: &Frame) -> (r: Result<(), ClientError>)
    ensures
        result_view(r) == connected(force, frame@.content),
{
    match HandshakeResponse::parse(frame) {
        Err(error) => Err(ClientError::from_protocol(error)),
        Ok(response) => if response.allowed {
            Ok(())
        } else {
            Err(ClientError::handshake_rejected(force, response.refusal_reason))
        },
    }
}

/// Whether values of the type can be read.
pub open spec fn readable(parameter_type: ParameterType) -> bool {
    match parameter_type {
        ParameterType::Int16 => true,
        ParameterType::Int32 => true,
        ParameterType::Float32 => true,
        ParameterType::String { .. } => true,
        _ => false,
    }
}

/// The request for the value of a parameter.
pub open spec fn read_ask_of(parameter: ParameterView, address: u8) -> Result<
    AskView,
    ClientErrorView,
> {
    if !readable(parameter.parameter_type) {
        Err(ClientErrorView::UnsupportedType(identity_of(parameter)))
    } else {
        parameter_ask(
            oid_request(address, parameter.oid, GET_PARAM, GET_STRING),
            ATTEMPTS,
            parameter.oid,
        )
    }
}

/// The request for the value of a parameter.
pub fn read_ask(parameter: &Parameter, address: u8) -> (r: Result<Ask, ClientError>)
    ensures
        result_view(r) == read_ask_of(parameter@, address),
{
    if !parameter.is_runtime_supported() {
        return Err(ClientError::UnsupportedType(parameter.identity()));
    }
    match get_request(address, &parameter.oid) {
        Ok(request) => Ok(
            Ask {
                request,
                attempts: ATTEMPTS,
                correlation: Correlation::Parameter(parameter.oid.clone()),
            },
        ),
        Err(error) => Err(ClientError::Protocol(error)),
    }
}

/// Bytes in hexadecimal, with blanks between them.
pub open spec fn bytes_text(bytes: Seq<u8>) -> Seq<char> {
    joined(bytes.map_values(|byte: u8| hex(byte as nat, 2, true)), " "@)
}

fn bytes_string(bytes: &Vec<u8>) -> (r: String)
    ensures
        r@ == bytes_text(bytes@),
{
    let mut parts: Vec<String> = Vec::new();
    let mut i: usize = 0;
    let ghost all = bytes@.map_values(|byte: u8| hex(byte as nat, 2, true));
    while i < bytes.len()
        invariant
            i <= bytes@.len(),
            all == bytes@.map_values(|byte: u8| hex(byte as nat, 2, true)),
            views(parts@) =~= all.take(i as int),
        decreases bytes@.len() - i,
    {
        let mut part = String::new();
        push_hex(&mut part, bytes[i] as u64, 2, true);
        assert(part@ =~= all[i as int]);
        let ghost before = parts@;
        let ghost view = part@;
        parts.push(part);
        assert(views(parts@) =~= views(before).push(view));
        i += 1;
    }
    assert(views(parts@) =~= all);
    join(&parts, " ")
}

/// The value in the response to a request for it.
pub open spec fn read_reply_of(parameter: ParameterView, content: Seq<u8>) -> Result<
    ValueView,
    ClientErrorView,
> {
    match answered(parsed_value(content, parameter.oid)) {
        Err(error) => Err(error),
        Ok(response) => match decoded_value(parameter.parameter_type, response.value) {
            Ok(value) => Ok(value),
            Err(error) => Err(
                ClientErrorView::InvalidParameterValue {
                    parameter: identity_of(parameter),
                    bytes: bytes_text(response.value),
                    source: error,
                },
            ),
        },
    }
}

/// The value in the response to a request for it.
pub fn read_reply(parameter: &Parameter, frame: &Frame) -> (r: Result<ParameterValue, ClientError>)
    ensures
        result_view(r) == read_reply_of(parameter@, frame@.content),
{
    let response = match ParameterResponse::parse(frame, &parameter.oid) {
        Ok(response) => response,
        Err(error) => return Err(ClientError::from_protocol(error)),
    };
    match decode(parameter, &response.value) {
        Ok(value) => Ok(value),
        Err(source) => Err(
            ClientError::InvalidParameterValue {
                parameter: parameter.identity(),
                bytes: bytes_string(&response.value),
                source,
            },
        ),
    }
}

/// A value that was read, and how it is shown.
#[derive(Debug, Clone, PartialEq)]
pub struct ReadResult {
    pub parameter: ParameterIdentity,
    pub value: ParameterValue,
    pub display_value: Option<DisplayValue>,
}

/// The value of a `ReadResult`.
pub struct ReadResultView {
    pub parameter: IdentityView,
    pub value: ValueView,
    pub display_value: Option<DisplayView>,
}

impl View for ReadResult {
    type V = ReadResultView;

    open spec fn view(&self) -> ReadResultView {
        ReadResultView {
            parameter: self.parameter@,
            value: self.value@,
            display_value: option_view(self.display_value),
        }
    }
}

/// A value that was read, with how it is shown. `number` is its place on the display scale.
pub open spec fn read_result_of(
    parameter: ParameterView,
    value: ValueView,
    number: Option<DisplayNumberView>,
) -> ReadResultView {
    ReadResultView {
        parameter: identity_of(parameter),
        value,
        display_value: interpreted(parameter, value, number),
    }
}

/// A value that was read, with how it is shown. `number` is its place on the display scale.
pub fn read_result(
    parameter: &Parameter,
    value: ParameterValue,
    number: Option<DisplayNumber>,
) -> (r: ReadResult)
    requires
        value_bits(value@) is Some ==> alarms_fit(resolved(parameter@.constraint)),
    ensures
        r@ == read_result_of(parameter@, value@, option_view(number)),
{
    let display_value = parameter.interpret(&value, number);
    ReadResult { parameter: parameter.identity(), value, display_value }
}

/// How often the request that gives a parameter a value may be sent.
pub open spec fn set_attempts(set_semantics: SetSemantics) -> usize {
    match set_semantics {
        SetSemantics::Value => ATTEMPTS,
        SetSemantics::Trigger => TRIGGER_SET_ATTEMPTS,
    }
}

/// The request that gives a parameter a value.
pub open spec fn write_ask_of(parameter: ParameterView, value: ValueView, address: u8) -> Result<
    AskView,
    ClientErrorView,
> {
    if parameter.access == Access::ReadOnly {
        Err(ClientErrorView::ReadOnly(identity_of(parameter)))
    } else {
        match encoded_value(parameter, value) {
            Err(error) => Err(ClientErrorView::Value(error)),
            Ok(bytes) => parameter_ask(
                set_request_of(address, parameter.oid, bytes),
                set_attempts(parameter.set_semantics),
                parameter.oid,
            ),
        }
    }
}

/// The request that gives a parameter a value.
pub fn write_ask(parameter: &Parameter, value: &ParameterValue, address: u8) -> (r: Result<
    Ask,
    ClientError,
>)
    ensures
        result_view(r) == write_ask_of(parameter@, value@, address),
{
    if parameter.access == Access::ReadOnly {
        return Err(ClientError::ReadOnly(parameter.identity()));
    }
    let bytes = match encode(parameter, value) {
        Ok(bytes) => bytes,
        Err(error) => return Err(ClientError::Value(error)),
    };
    let attempts: usize = match parameter.set_semantics {
        SetSemantics::Value => ATTEMPTS,
        SetSemantics::Trigger => TRIGGER_SET_ATTEMPTS,
    };
    match set_request(address, &parameter.oid, &bytes) {
        Ok(request) => Ok(
            Ask {
                request,
                attempts,
                correlation: Correlation::Parameter(parameter.oid.clone()),
            },
        ),
        Err(error) => Err(ClientError::Protocol(error)),
    }
}

/// The value that a parameter has after a write, in the response to it.
pub open spec fn write_reply_of(parameter: ParameterView, content: Seq<u8>) -> Result<
    ValueView,
    ClientErrorView,
> {
    match answered(parsed_value(content, parameter.oid)) {
        Err(error) => Err(error),
        Ok(response) => match decoded_value(parameter.parameter_type, response.value) {
            Ok(value) => Ok(value),
            Err(error) => Err(ClientErrorView::Value(error)),
        },
    }
}

/// The value that a parameter has after a write, in the response to it.
pub fn write_reply(parameter: &Parameter, frame: &Frame) -> (r: Result<ParameterValue, ClientError>)
    ensures
        result_view(r) == write_reply_of(parameter@, frame@.content),
{
    let response = match ParameterResponse::parse(frame, &parameter.oid) {
        Ok(response) => response,
        Err(error) => return Err(ClientError::from_protocol(error)),
    };
    match decode(parameter, &response.value) {
        Ok(value) => Ok(value),
        Err(error) => Err(ClientError::Value(error)),
    }
}

/// What was written, what the parameter has since, and how that is shown.
#[derive(Debug, Clone, PartialEq)]
pub struct WriteResult {
    pub parameter: ParameterIdentity,
    pub requested_value: ParameterValue,
    pub value: ParameterValue,
    pub display_value: Option<DisplayValue>,
}

/// The value of a `WriteResult`.
pub struct WriteResultView {
    pub parameter: IdentityView,
    pub requested_value: ValueView,
    pub value: ValueView,
    pub display_value: Option<DisplayView>,
}

impl View for WriteResult {
    type V = WriteResultView;

    open spec fn view(&self) -> WriteResultView {
        WriteResultView {
            parameter: self.parameter@,
            requested_value: self.requested_value@,
            value: self.value@,
            display_value: option_view(self.display_value),
        }
    }
}

/// What was written, with what the parameter has since. `number` is the place of that value on
/// the display scale.
pub open spec fn write_result_of(
    parameter: ParameterView,
    requested_value: ValueView,
    value: ValueView,
    number: Option<DisplayNumberView>,
) -> WriteResultView {
    WriteResultView {
        parameter: identity_of(parameter),
        requested_value,
        value,
        display_value: interpreted(parameter, value, number),
    }
}

/// What was written, with what the parameter has since. `number` is the place of that value on
/// the display scale.
pub fn write_result(
    parameter: &Parameter,
    requested_value: ParameterValue,
    value: ParameterValue,
    number: Option<DisplayNumber>,
) -> (r: WriteResult)
    requires
        value_bits(value@) is Some ==> alarms_fit(resolved(parameter@.constraint)),
    ensures
        r@ == write_result_of(parameter@, requested_value@, value@, option_view(number)),
{
    let display_value = parameter.interpret(&value, number);
    WriteResult { parameter: parameter.identity(), requested_value, value, display_value }
}

} // verus!
