//! What can be wrong with a message.

use crate::bytes::Utf8Failure;
use crate::model::{oid_text, OidView, ParameterOid};
use crate::text::{concat, decimal, decimal_text, hex, push_hex, with_number};
use vstd::prelude::*;
use vstd::string::*;

verus! {

#[derive(Debug)]
pub enum ProtocolError {
    ContentTooLarge(usize),
    ParameterValueTooLarge(usize),
    StringOidTooLong(usize),
    InvalidResponse(&'static str),
    InvalidString(&'static str),
    InvalidConstraint(&'static str),
    UnsupportedDescriptorVersion(u8),
    InvalidAccess(u8),
    UnexpectedOid { expected: ParameterOid, actual: ParameterOid },
    Remote(u8),
    Utf8(Utf8Failure),
}

/// The value of a `ProtocolError`.
pub enum ProtocolErrorView {
    ContentTooLarge(usize),
    ParameterValueTooLarge(usize),
    StringOidTooLong(usize),
    InvalidResponse(Seq<char>),
    InvalidString(Seq<char>),
    InvalidConstraint(Seq<char>),
    UnsupportedDescriptorVersion(u8),
    InvalidAccess(u8),
    UnexpectedOid { expected: OidView, actual: OidView },
    Remote(u8),
    Utf8(Utf8Failure),
}

impl View for ProtocolError {
    type V = ProtocolErrorView;

    open spec fn view(&self) -> ProtocolErrorView {
        match *self {
            ProtocolError::ContentTooLarge(n) => ProtocolErrorView::ContentTooLarge(n),
            ProtocolError::ParameterValueTooLarge(n) => ProtocolErrorView::ParameterValueTooLarge(
                n,
            ),
            ProtocolError::StringOidTooLong(n) => ProtocolErrorView::StringOidTooLong(n),
            ProtocolError::InvalidResponse(text) => ProtocolErrorView::InvalidResponse(text@),
            ProtocolError::InvalidString(text) => ProtocolErrorView::InvalidString(text@),
            ProtocolError::InvalidConstraint(text) => ProtocolErrorView::InvalidConstraint(text@),
            ProtocolError::UnsupportedDescriptorVersion(n) =>
                ProtocolErrorView::UnsupportedDescriptorVersion(n),
            ProtocolError::InvalidAccess(n) => ProtocolErrorView::InvalidAccess(n),
            ProtocolError::UnexpectedOid { expected, actual } => ProtocolErrorView::UnexpectedOid {
                expected: expected@,
                actual: actual@,
            },
            ProtocolError::Remote(code) => ProtocolErrorView::Remote(code),
            ProtocolError::Utf8(failure) => ProtocolErrorView::Utf8(failure),
        }
    }
}

/// What is said of bytes that are not UTF-8.
pub open spec fn utf8_failure_text(failure: Utf8Failure) -> Seq<char> {
    match failure.error_len {
        Some(length) => "invalid utf-8 sequence of "@ + decimal(length as nat)
            + " bytes from index "@ + decimal(failure.valid_up_to as nat),
        None => "incomplete utf-8 byte sequence from index "@ + decimal(failure.valid_up_to as nat),
    }
}

impl Utf8Failure {
    pub fn to_string(&self) -> (r: String)
        ensures
            r@ == utf8_failure_text(*self),
    {
        match self.error_len {
            Some(length) => {
                let mut text = "invalid utf-8 sequence of ".to_owned();
                text.append(&decimal_text(length as u64));
                text.append(" bytes from index ");
                text.append(&decimal_text(self.valid_up_to as u64));
                text
            },
            None => {
                let mut text = "incomplete utf-8 byte sequence from index ".to_owned();
                text.append(&decimal_text(self.valid_up_to as u64));
                text
            },
        }
    }
}

/// What is said of an error.
pub open spec fn protocol_error_text(error: ProtocolErrorView) -> Seq<char> {
    match error {
        ProtocolErrorView::ContentTooLarge(n) => "OGP content is too large: "@ + decimal(n as nat)
            + " bytes"@,
        ProtocolErrorView::ParameterValueTooLarge(n) => "parameter value is too large: "@ + decimal(
            n as nat,
        ) + " bytes"@,
        ProtocolErrorView::StringOidTooLong(n) => "string OID is too long: "@ + decimal(n as nat)
            + " bytes"@,
        ProtocolErrorView::InvalidResponse(text) => "invalid OGP response: "@ + text,
        ProtocolErrorView::InvalidString(text) => "invalid "@ + text,
        ProtocolErrorView::InvalidConstraint(text) => "invalid parameter constraint: "@ + text,
        ProtocolErrorView::UnsupportedDescriptorVersion(n) => "unsupported descriptor version "@
            + decimal(n as nat),
        ProtocolErrorView::InvalidAccess(n) => "invalid descriptor access value "@ + decimal(
            n as nat,
        ),
        ProtocolErrorView::UnexpectedOid { expected, actual } => "unexpected OID: expected "@
            + oid_text(expected) + ", received "@ + oid_text(actual),
        ProtocolErrorView::Remote(code) => "remote returned OGP error 0x"@ + hex(
            code as nat,
            2,
            false,
        ),
        ProtocolErrorView::Utf8(failure) => "value is not valid UTF-8: "@ + utf8_failure_text(
            failure,
        ),
    }
}

impl ProtocolError {
    /// What is said of the error.
    pub fn to_string(&self) -> (r: String)
        ensures
            r@ == protocol_error_text(self@),
    {
        match self {
            Self::ContentTooLarge(n) => with_number(
                "OGP content is too large: ",
                *n as u64,
                " bytes",
            ),
            Self::ParameterValueTooLarge(n) => with_number(
                "parameter value is too large: ",
                *n as u64,
                " bytes",
            ),
            Self::StringOidTooLong(n) => with_number(
                "string OID is too long: ",
                *n as u64,
                " bytes",
            ),
            Self::InvalidResponse(text) => concat("invalid OGP response: ", text),
            Self::InvalidString(text) => concat("invalid ", text),
            Self::InvalidConstraint(text) => concat("invalid parameter constraint: ", text),
            Self::UnsupportedDescriptorVersion(n) => concat(
                "unsupported descriptor version ",
                &decimal_text(*n as u64),
            ),
            Self::InvalidAccess(n) => concat(
                "invalid descriptor access value ",
                &decimal_text(*n as u64),
            ),
            Self::UnexpectedOid { expected, actual } => {
                let mut text = concat("unexpected OID: expected ", &expected.to_string());
                text.append(", received ");
                text.append(&actual.to_string());
                text
            },
            Self::Remote(code) => {
                let mut text = "remote returned OGP error 0x".to_owned();
                push_hex(&mut text, *code as u64, 2, false);
                text
            },
            Self::Utf8(failure) => concat("value is not valid UTF-8: ", &failure.to_string()),
        }
    }
}

} // verus!
