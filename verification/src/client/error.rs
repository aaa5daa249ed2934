//! What can go wrong between a client and a device.

use crate::catalog::{
    catalog_error_text, resolve_error_text, CatalogError, CatalogErrorView, ResolveError,
    ResolveErrorView,
};
use crate::model::{oid_text, IdentityView, ParameterIdentity};
use crate::protocol::error::{protocol_error_text, ProtocolError, ProtocolErrorView};
use crate::text::{concat, hex, push_hex, with_number};
use crate::value::{optional_text, value_error_text, ValueError, ValueErrorView};
use vstd::prelude::*;
use vstd::string::*;

verus! {

#[derive(Debug)]
pub enum ClientError {
    Timeout { phase: &'static str },
    ConnectionClosed,
    HandshakeRejected { reason: Option<u16> },
    ConnectionInUse,
    AuthenticationRequired,
    ReadOnly(ParameterIdentity),
    UnsupportedType(ParameterIdentity),
    InvalidParameterValue { parameter: ParameterIdentity, bytes: String, source: ValueError },
    Remote { code: u8, description: &'static str },
    InvalidDiscovery(&'static str),
    Resolve(ResolveError),
    Catalog(CatalogError),
    Value(ValueError),
    Protocol(ProtocolError),
    /// What the system said of a connection.
    Io(String),
}

/// The value of a `ClientError`.
pub enum ClientErrorView {
    Timeout { phase: Seq<char> },
    ConnectionClosed,
    HandshakeRejected { reason: Option<u16> },
    ConnectionInUse,
    AuthenticationRequired,
    ReadOnly(IdentityView),
    UnsupportedType(IdentityView),
    InvalidParameterValue { parameter: IdentityView, bytes: Seq<char>, source: ValueErrorView },
    Remote { code: u8, description: Seq<char> },
    InvalidDiscovery(Seq<char>),
    Resolve(ResolveErrorView),
    Catalog(CatalogErrorView),
    Value(ValueErrorView),
    Protocol(ProtocolErrorView),
    Io(Seq<char>),
}

impl View for ClientError {
    type V = ClientErrorView;

    open spec fn view(&self) -> ClientErrorView {
        match *self {
            ClientError::Timeout { phase } => ClientErrorView::Timeout { phase: phase@ },
            ClientError::ConnectionClosed => ClientErrorView::ConnectionClosed,
            ClientError::HandshakeRejected { reason } => ClientErrorView::HandshakeRejected {
                reason,
            },
            ClientError::ConnectionInUse => ClientErrorView::ConnectionInUse,
            ClientError::AuthenticationRequired => ClientErrorView::AuthenticationRequired,
            ClientError::ReadOnly(parameter) => ClientErrorView::ReadOnly(parameter@),
            ClientError::UnsupportedType(parameter) => ClientErrorView::UnsupportedType(parameter@),
            ClientError::InvalidParameterValue { parameter, bytes, source } =>
                ClientErrorView::InvalidParameterValue {
                parameter: parameter@,
                bytes: bytes@,
                source: source@,
            },
            ClientError::Remote { code, description } => ClientErrorView::Remote {
                code,
                description: description@,
            },
            ClientError::InvalidDiscovery(text) => ClientErrorView::InvalidDiscovery(text@),
            ClientError::Resolve(error) => ClientErrorView::Resolve(error@),
            ClientError::Catalog(error) => ClientErrorView::Catalog(error@),
            ClientError::Value(error) => ClientErrorView::Value(error@),
            ClientError::Protocol(error) => ClientErrorView::Protocol(error@),
            ClientError::Io(text) => ClientErrorView::Io(text@),
        }
    }
}

/// A parameter: its OID, and its name in brackets.
pub open spec fn identity_text(parameter: IdentityView) -> Seq<char> {
    oid_text(parameter.oid) + " ("@ + parameter.display_name + ")"@
}

fn identity_string(parameter: &ParameterIdentity) -> (r: String)
    ensures
        r@ == identity_text(parameter@),
{
    concat(&concat(&concat(&parameter.oid.to_string(), " ("), &parameter.display_name), ")")
}

/// What is said of an error.
pub open spec fn client_error_text(error: ClientErrorView) -> Seq<char> {
    match error {
        ClientErrorView::Timeout { phase } => phase + " timed out"@,
        ClientErrorView::ConnectionClosed =>
            "connection closed before a complete response was received"@,
        ClientErrorView::HandshakeRejected { reason } =>
            "connection handshake was rejected (reason "@ + optional_text(
            match reason {
                Some(reason) => Some(reason as nat),
                None => None,
            },
        ) + ")"@,
        ClientErrorView::ConnectionInUse =>
            "connection refused because all available client connections are in use"@,
        ClientErrorView::AuthenticationRequired =>
            "connection requires authentication, which is not supported"@,
        ClientErrorView::ReadOnly(parameter) => "parameter is read-only: "@ + identity_text(
            parameter,
        ),
        ClientErrorView::UnsupportedType(parameter) =>
            "parameter type is not supported at runtime: "@ + identity_text(parameter),
        ClientErrorView::InvalidParameterValue { parameter, bytes, source } =>
            "invalid value returned for "@ + identity_text(parameter) + ": "@ + value_error_text(
            source,
        ) + "; bytes: "@ + bytes,
        ClientErrorView::Remote { code, description } => "card returned OGP error 0x"@ + hex(
            code as nat,
            2,
            false,
        ) + ": "@ + description,
        ClientErrorView::InvalidDiscovery(text) => "invalid device metadata: "@ + text,
        ClientErrorView::Resolve(error) => resolve_error_text(error),
        ClientErrorView::Catalog(error) => catalog_error_text(error),
        ClientErrorView::Value(error) => value_error_text(error),
        ClientErrorView::Protocol(error) => protocol_error_text(error),
        ClientErrorView::Io(text) => text,
    }
}

/// What a return code means.
pub open spec fn code_text(code: u8) -> Seq<char> {
    if code == 0x00 {
        "success"@
    } else if code == 0x01 {
        "unsupported message"@
    } else if code == 0x02 {
        "invalid message length"@
    } else if code == 0x03 {
        "request denied"@
    } else if code == 0x11 {
        "parameter not found"@
    } else if code == 0x12 {
        "bad or out-of-range value"@
    } else if code == 0x13 {
        "read-only parameter"@
    } else if code == 0x14 {
        "parameter locked"@
    } else if code == 0x15 {
        "bad array index"@
    } else {
        "unknown remote error"@
    }
}

fn return_code_description(code: u8) -> (r: &'static str)
    ensures
        r@ == code_text(code),
{
    match code {
        0x00 => "success",
        0x01 => "unsupported message",
        0x02 => "invalid message length",
        0x03 => "request denied",
        0x11 => "parameter not found",
        0x12 => "bad or out-of-range value",
        0x13 => "read-only parameter",
        0x14 => "parameter locked",
        0x15 => "bad array index",
        _ => "unknown remote error",
    }
}

/// What an error in a response means for the client: a return code is the device's own answer.
pub open spec fn from_response(error: ProtocolErrorView) -> ClientErrorView {
    match error {
        ProtocolErrorView::Remote(code) => ClientErrorView::Remote {
            code,
            description: code_text(code),
        },
        _ => ClientErrorView::Protocol(error),
    }
}

/// A response, or what its error means for the client.
pub open spec fn answered<T>(result: Result<T, ProtocolErrorView>) -> Result<T, ClientErrorView> {
    match result {
        Ok(value) => Ok(value),
        Err(error) => Err(from_response(error)),
    }
}

/// A response that cannot be what was asked for.
pub open spec fn unusable<T>(text: Seq<char>) -> Result<T, ClientErrorView> {
    Err(ClientErrorView::InvalidDiscovery(text))
}

/// What a refused connection means. The first reason stands for connections that others hold; it
/// is told apart where they were not to be displaced.
pub open spec fn refusal(force: bool, reason: Option<u16>) -> ClientErrorView {
    if reason == Some(0u16) && !force {
        ClientErrorView::ConnectionInUse
    } else if reason == Some(2u16) {
        ClientErrorView::AuthenticationRequired
    } else {
        ClientErrorView::HandshakeRejected { reason }
    }
}

impl ClientError {
    /// What a refused connection means.
    pub fn handshake_rejected(force: bool, reason: Option<u16>) -> (r: Self)
        ensures
            r@ == refusal(force, reason),
    {
        match reason {
            Some(0) if !force => Self::ConnectionInUse,
            Some(2) => Self::AuthenticationRequired,
            reason => Self::HandshakeRejected { reason },
        }
    }

    /// What an error in a response means for the client.
    pub fn from_protocol(error: ProtocolError) -> (r: Self)
        ensures
            r@ == from_response(error@),
    {
        match error {
            ProtocolError::Remote(code) => Self::Remote {
                code,
                description: return_code_description(code),
            },
            error => Self::Protocol(error),
        }
    }

    /// What is said of the error.
    pub fn to_string(&self) -> (r: String)
        ensures
            r@ == client_error_text(self@),
    {
        match self {
            Self::Timeout { phase } => concat(phase, " timed out"),
            Self::ConnectionClosed =>
                "connection closed before a complete response was received".to_owned(),
            Self::HandshakeRejected { reason } => {
                let text = match reason {
                    Some(reason) => with_number("Some(", *reason as u64, ")"),
                    None => "None".to_owned(),
                };
                concat(&concat("connection handshake was rejected (reason ", &text), ")")
            },
            Self::ConnectionInUse =>
                "connection refused because all available client connections are in use".to_owned(),
            Self::AuthenticationRequired =>
                "connection requires authentication, which is not supported".to_owned(),
            Self::ReadOnly(parameter) => concat(
                "parameter is read-only: ",
                &identity_string(parameter),
            ),
            Self::UnsupportedType(parameter) => concat(
                "parameter type is not supported at runtime: ",
                &identity_string(parameter),
            ),
            Self::InvalidParameterValue { parameter, bytes, source } => {
                let start = concat("invalid value returned for ", &identity_string(parameter));
                let middle = concat(&concat(&start, ": "), &source.to_string());
                concat(&concat(&middle, "; bytes: "), bytes)
            },
            Self::Remote { code, description } => {
                let mut text = "card returned OGP error 0x".to_owned();
                push_hex(&mut text, *code as u64, 2, false);
                concat(&concat(&text, ": "), description)
            },
            Self::InvalidDiscovery(text) => concat("invalid device metadata: ", text),
            Self::Resolve(error) => error.to_string(),
            Self::Catalog(error) => error.to_string(),
            Self::Value(error) => error.to_string(),
            Self::Protocol(error) => error.to_string(),
            Self::Io(text) => text.clone(),
        }
    }
}

} // verus!
