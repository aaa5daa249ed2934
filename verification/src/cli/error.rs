//! What a command can end with, and what helps then.

use crate::catalog::{resolve_error_text, ResolveError, ResolveErrorView};
use crate::client::error::{client_error_text, ClientError, ClientErrorView};
use crate::csv_output::{possible_values_table, value_table, CsvOutputError};
use crate::model::{Parameter, ParameterView};
use crate::value::{value_error_text, ValueError, ValueErrorView};
use crate::views::option_view;
use vstd::prelude::*;
use vstd::string::*;

verus! {

/// What a command can end with.
#[derive(Debug)]
pub enum CliError {
    Usage(String),
    Client(ClientError),
    Value(ValueError),
    Resolve(ResolveError),
    /// What was said of JSON that could not be written.
    Json(String),
    CsvOutput(CsvOutputError),
    /// What the system said of output that could not be written.
    Io(String),
}

/// The value of a `CliError`.
pub enum CliErrorView {
    Usage(Seq<char>),
    Client(ClientErrorView),
    Value(ValueErrorView),
    Resolve(ResolveErrorView),
    Json(Seq<char>),
    CsvOutput(CsvOutputError),
    Io(Seq<char>),
}

impl View for CliError {
    type V = CliErrorView;

    open spec fn view(&self) -> CliErrorView {
        match *self {
            CliError::Usage(text) => CliErrorView::Usage(text@),
            CliError::Client(error) => CliErrorView::Client(error@),
            CliError::Value(error) => CliErrorView::Value(error@),
            CliError::Resolve(error) => CliErrorView::Resolve(error@),
            CliError::Json(text) => CliErrorView::Json(text@),
            CliError::CsvOutput(error) => CliErrorView::CsvOutput(error),
            CliError::Io(text) => CliErrorView::Io(text@),
        }
    }
}

/// What is said of an error.
pub open spec fn cli_error_text(error: CliErrorView) -> Seq<char> {
    match error {
        CliErrorView::Usage(text) => text,
        CliErrorView::Client(error) => client_error_text(error),
        CliErrorView::Value(error) => value_error_text(error),
        CliErrorView::Resolve(error) => resolve_error_text(error),
        CliErrorView::Json(text) => text,
        CliErrorView::CsvOutput(CsvOutputError::Csv(text)) => text@,
        CliErrorView::CsvOutput(CsvOutputError::Finalize(text)) => "failed to finalize CSV: "@
            + text@,
        CliErrorView::Io(text) => text,
    }
}

/// The error about a name that was looked up, where the error is one.
pub open spec fn resolution_of(error: CliErrorView) -> Option<ResolveErrorView> {
    match error {
        CliErrorView::Client(ClientErrorView::Resolve(error)) => Some(error),
        CliErrorView::Resolve(error) => Some(error),
        _ => None,
    }
}

/// The kind of an error about a name.
pub open spec fn resolution_kind(error: ResolveErrorView) -> Seq<char> {
    match error {
        ResolveErrorView::NotFound(_) => "parameter_not_found"@,
        ResolveErrorView::ParameterNotFoundInMenu { .. } => "parameter_not_found"@,
        ResolveErrorView::MenuNotFound { .. } => "menu_not_found"@,
        ResolveErrorView::AmbiguousDisplayName { .. } => "ambiguous_parameter"@,
        ResolveErrorView::AmbiguousMenu { .. } => "ambiguous_menu"@,
        ResolveErrorView::AmbiguousGroup { .. } => "ambiguous_group"@,
        ResolveErrorView::MenusUnavailable(_) => "menu_unavailable"@,
    }
}

/// The kind of an error, for scripts.
pub open spec fn kind_of(error: CliErrorView) -> Seq<char> {
    match error {
        CliErrorView::Usage(_) => "usage"@,
        CliErrorView::Resolve(error) => resolution_kind(error),
        CliErrorView::Client(error) => match error {
            ClientErrorView::Resolve(error) => resolution_kind(error),
            ClientErrorView::AuthenticationRequired => "authentication_required"@,
            ClientErrorView::ConnectionInUse => "connection_in_use"@,
            ClientErrorView::HandshakeRejected { .. } => "handshake_rejected"@,
            ClientErrorView::Timeout { .. } => "timeout"@,
            ClientErrorView::Remote { .. } => "remote_error"@,
            _ => "client"@,
        },
        CliErrorView::Value(_) => "value"@,
        _ => "output"@,
    }
}

/// The status that a command ends with.
pub open spec fn exit_code_of(error: CliErrorView) -> u8 {
    match error {
        CliErrorView::Usage(_) => 2,
        CliErrorView::Client(ClientErrorView::Resolve(_)) => 4,
        CliErrorView::Resolve(_) => 4,
        CliErrorView::Value(_) => 4,
        CliErrorView::Client(_) => 5,
        _ => 6,
    }
}

/// The advice for an error with the connection.
pub open spec fn advice_of(error: CliErrorView) -> Option<Seq<char>> {
    match error {
        CliErrorView::Client(ClientErrorView::ConnectionInUse) => Some(
            "Retry without --no-force to force the connection and disconnect another client."@,
        ),
        _ => None,
    }
}

fn name_kind(error: &ResolveError) -> (r: &'static str)
    ensures
        r@ == resolution_kind(error@),
{
    match error {
        ResolveError::NotFound(_) => "parameter_not_found",
        ResolveError::ParameterNotFoundInMenu { .. } => "parameter_not_found",
        ResolveError::MenuNotFound { .. } => "menu_not_found",
        ResolveError::AmbiguousDisplayName { .. } => "ambiguous_parameter",
        ResolveError::AmbiguousMenu { .. } => "ambiguous_menu",
        ResolveError::AmbiguousGroup { .. } => "ambiguous_group",
        ResolveError::MenusUnavailable(_) => "menu_unavailable",
    }
}

impl CliError {
    /// What is said of the error.
    pub fn to_string(&self) -> (r: String)
        ensures
            r@ == cli_error_text(self@),
    {
        match self {
            Self::Usage(text) => text.clone(),
            Self::Client(error) => error.to_string(),
            Self::Value(error) => error.to_string(),
            Self::Resolve(error) => error.to_string(),
            Self::Json(text) => text.clone(),
            Self::CsvOutput(error) => error.to_string(),
            Self::Io(text) => text.clone(),
        }
    }

    /// The kind of the error, for scripts.
    pub fn kind(&self) -> (r: &'static str)
        ensures
            r@ == kind_of(self@),
    {
        match self {
            Self::Usage(_) => "usage",
            Self::Resolve(error) => name_kind(error),
            Self::Client(error) => match error {
                ClientError::Resolve(error) => name_kind(error),
                ClientError::AuthenticationRequired => "authentication_required",
                ClientError::ConnectionInUse => "connection_in_use",
                ClientError::HandshakeRejected { .. } => "handshake_rejected",
                ClientError::Timeout { .. } => "timeout",
                ClientError::Remote { .. } => "remote_error",
                _ => "client",
            },
            Self::Value(_) => "value",
            _ => "output",
        }
    }

    /// The status that the command ends with.
    pub fn exit_code(&self) -> (r: u8)
        ensures
            r == exit_code_of(self@),
    {
        match self {
            Self::Usage(_) => 2,
            Self::Client(ClientError::Resolve(_)) => 4,
            Self::Resolve(_) => 4,
            Self::Value(_) => 4,
            Self::Client(_) => 5,
            _ => 6,
        }
    }
}

/// The error about a name that was looked up, where the error is one.
pub fn resolution_error(error: &CliError) -> (r: Option<&ResolveError>)
    ensures
        option_view(r) == resolution_of(error@),
{
    match error {
        CliError::Client(ClientError::Resolve(error)) => Some(error),
        CliError::Resolve(error) => Some(error),
        _ => None,
    }
}

/// The advice for an error with the connection.
pub fn connection_guidance(error: &CliError) -> (r: Option<&'static str>)
    ensures
        option_view(r) == advice_of(error@),
{
    match error {
        CliError::Client(ClientError::ConnectionInUse) => Some(
            "Retry without --no-force to force the connection and disconnect another client.",
        ),
        _ => None,
    }
}

/// What is said where the value to write is missing: with the table of the values that the
/// parameter can have.
pub open spec fn missing_value(parameter: ParameterView) -> CliErrorView {
    CliErrorView::Usage(
        match value_table(parameter) {
            Some(table) => "missing required argument <VALUE>"@ + "\npossible values:\n"@ + table,
            None => "missing required argument <VALUE>"@,
        },
    )
}

/// What is said where the value to write is missing.
pub fn missing_value_error(parameter: &Parameter) -> (r: CliError)
    ensures
        r@ == missing_value(parameter@),
{
    let mut message = "missing required argument <VALUE>".to_owned();
    if let Some(table) = possible_values_table(parameter) {
        message.append("\npossible values:\n");
        message.append(&table);
    }
    CliError::Usage(message)
}

/// A name that shows where it is empty.
pub open spec fn name_text(name: Seq<char>) -> Seq<char> {
    if name.len() == 0 {
        "<unnamed>"@
    } else {
        name
    }
}

/// A name that shows where it is empty.
pub fn visible_name(name: &str) -> (r: &str)
    ensures
        r@ == name_text(name@),
{
    if name.unicode_len() == 0 {
        "<unnamed>"
    } else {
        name
    }
}

} // verus!
