//! Laws of messages: what is said of a failure names what failed.

use crate::catalog::{catalog_error_text, resolve_error_text, CatalogErrorView, ResolveErrorView};
use crate::cli::command::value_to_write;
use crate::cli::error::{cli_error_text, CliErrorView};
use crate::client::access::bytes_text;
use crate::client::error::{client_error_text, ClientErrorView};
use crate::client::fetch::{object_ask, object_reply, ExternalObjectView, Progress};
use crate::client::exchange::AskView;
use crate::csv_output::{value_headers, value_rows};
use crate::model::{
    digits_after, is_digit, is_string_oid, oid_text, Access, IdentityView, OidView, ParameterView,
};
use crate::protocol::error::{protocol_error_text, ProtocolErrorView};
use crate::table::table_lines;
use crate::text::{debug_text, decimal, hex, joined};
use crate::value::{value_error_text, ValueErrorView};
use vstd::prelude::*;

verus! {

/// A failure about a parameter names it by its OID and, in brackets, by its name.
pub proof fn law_failure_names_the_parameter(
    parameter: IdentityView,
    bytes: Seq<char>,
    source: ValueErrorView,
)
    ensures
        ({
            let named = oid_text(parameter.oid) + " ("@ + parameter.display_name + ")"@;
            &&& client_error_text(ClientErrorView::ReadOnly(parameter))
                == "parameter is read-only: "@ + named
            &&& client_error_text(ClientErrorView::UnsupportedType(parameter))
                == "parameter type is not supported at runtime: "@ + named
            &&& client_error_text(
                ClientErrorView::InvalidParameterValue { parameter, bytes, source },
            ) == "invalid value returned for "@ + named + ": "@ + value_error_text(source)
                + "; bytes: "@ + bytes
        }),
{
}

/// A refusal of the device is told with its code, in two hexadecimal digits, and what it means.
pub proof fn law_refusal_is_told_with_its_code(code: u8, description: Seq<char>)
    ensures
        client_error_text(ClientErrorView::Remote { code, description })
            == "card returned OGP error 0x"@ + hex(code as nat, 2, false) + ": "@ + description,
        protocol_error_text(ProtocolErrorView::Remote(code)) == "remote returned OGP error 0x"@
            + hex(code as nat, 2, false),
{
}

/// A failure within another is told in its own words.
pub proof fn law_failure_is_told_in_its_own_words(
    client: ClientErrorView,
    resolve: ResolveErrorView,
    value: ValueErrorView,
    protocol: ProtocolErrorView,
    catalog: CatalogErrorView,
)
    ensures
        cli_error_text(CliErrorView::Client(client)) == client_error_text(client),
        cli_error_text(CliErrorView::Resolve(resolve)) == resolve_error_text(resolve),
        cli_error_text(CliErrorView::Value(value)) == value_error_text(value),
        client_error_text(ClientErrorView::Resolve(resolve)) == resolve_error_text(resolve),
        client_error_text(ClientErrorView::Value(value)) == value_error_text(value),
        client_error_text(ClientErrorView::Protocol(protocol)) == protocol_error_text(protocol),
        client_error_text(ClientErrorView::Catalog(catalog)) == catalog_error_text(catalog),
        catalog matches CatalogErrorView::DuplicateOid(oid) ==> catalog_error_text(catalog)
            == "device returned duplicate OID "@ + oid_text(oid),
{
}

/// A failure about a name tells the name, and the menu or the group where there is one.
pub proof fn law_failure_tells_the_name(error: ResolveErrorView)
    ensures
        resolve_error_text(error) == match error {
            ResolveErrorView::NotFound(name) => "parameter not found: "@ + name,
            ResolveErrorView::AmbiguousDisplayName { name, .. } => "display name "@ + debug_text(
                name,
            ) + " is ambiguous"@,
            ResolveErrorView::MenusUnavailable(reason) => "menu metadata is unavailable: "@
                + reason,
            ResolveErrorView::MenuNotFound { group: Some(group), menu } => "menu "@ + debug_text(
                menu,
            ) + " was not found"@ + (" in group "@ + debug_text(group)),
            ResolveErrorView::MenuNotFound { group: None, menu } => "menu "@ + debug_text(menu)
                + " was not found"@,
            ResolveErrorView::AmbiguousMenu { menu, .. } => "menu name "@ + debug_text(menu)
                + " is ambiguous"@,
            ResolveErrorView::AmbiguousGroup { group, .. } => "menu group name "@ + debug_text(
                group,
            ) + " is ambiguous"@,
            ResolveErrorView::ParameterNotFoundInMenu { menu, selector } => "parameter "@
                + debug_text(selector) + " was not found in menu "@ + debug_text(menu),
        },
{
    reveal_strlit("");
    if let ResolveErrorView::MenuNotFound { group: None, menu } = error {
        let text = "menu "@ + debug_text(menu) + " was not found"@;
        assert(text + ""@ =~= text);
    }
}

/// A failure about sizes tells both of them, the one that was expected first.
pub proof fn law_failure_tells_the_sizes(
    expected: usize,
    actual: usize,
    wanted: OidView,
    received: OidView,
)
    ensures
        value_error_text(ValueErrorView::InvalidLength { expected, actual }) == "expected "@
            + decimal(expected as nat) + " value bytes, received "@ + decimal(actual as nat),
        value_error_text(ValueErrorView::StringTooLong { maximum: expected, actual })
            == "string is too long: maximum "@ + decimal(expected as nat)
            + " UTF-8 bytes, received "@ + decimal(actual as nat),
        protocol_error_text(ProtocolErrorView::UnexpectedOid { expected: wanted, actual: received })
            == "unexpected OID: expected "@ + oid_text(wanted) + ", received "@ + oid_text(received),
        protocol_error_text(ProtocolErrorView::ContentTooLarge(actual))
            == "OGP content is too large: "@ + decimal(actual as nat) + " bytes"@,
        protocol_error_text(ProtocolErrorView::ParameterValueTooLarge(actual))
            == "parameter value is too large: "@ + decimal(actual as nat) + " bytes"@,
        protocol_error_text(ProtocolErrorView::StringOidTooLong(actual))
            == "string OID is too long: "@ + decimal(actual as nat) + " bytes"@,
{
}

/// A text that is no value is told, and below it the values that the parameter can have.
pub proof fn law_failure_tells_the_text(text: Seq<char>, values: Seq<char>)
    ensures
        value_error_text(ValueErrorView::InvalidText(text)) == "invalid value: "@ + text,
        value_error_text(
            ValueErrorView::InvalidParameterValue { value: text, possible_values: values },
        ) == "invalid value: "@ + text + "\npossible values:\n"@ + values,
{
}

/// Where the value to write is missing, that is told, with the values that the parameter can have.
pub proof fn law_missing_value_is_told(parameter: ParameterView)
    requires
        parameter.access == Access::ReadWrite,
    ensures
        value_to_write(parameter, None) matches Err(CliErrorView::Usage(text)) && match value_rows(
            parameter,
        ) {
            Some(rows) => text == "missing required argument <VALUE>"@ + "\npossible values:\n"@
                + joined(table_lines(value_headers(parameter), rows), "\n"@),
            None => text == "missing required argument <VALUE>"@,
        },
{
}

/// Bytes are told in two hexadecimal digits each, with blanks between them.
pub proof fn law_bytes_are_told(bytes: Seq<u8>, byte: u8)
    ensures
        bytes_text(seq![]).len() == 0,
        bytes_text(seq![byte]) == hex(byte as nat, 2, true),
        bytes.len() > 0 ==> bytes_text(bytes.push(byte)) == bytes_text(bytes) + seq![' '] + hex(
            byte as nat,
            2,
            true,
        ),
{
    reveal_strlit(" ");
    assert(" "@ =~= seq![' ']);
    let parts = bytes.map_values(|byte: u8| hex(byte as nat, 2, true));
    let more = bytes.push(byte).map_values(|byte: u8| hex(byte as nat, 2, true));
    assert(more.drop_last() =~= parts);
    assert(more.last() == hex(byte as nat, 2, true));
    let one = seq![byte].map_values(|byte: u8| hex(byte as nat, 2, true));
    assert(one[0] == hex(byte as nat, 2, true));
}

/// An object whose fragments come again, or are too many, is given up: nothing more is asked for and
/// nothing more is taken.
pub proof fn law_object_is_given_up(object: ExternalObjectView, address: u8, content: Seq<u8>)
    ensures
        object.seen.len() >= 4096 ==> object_ask(object, address) == Err::<AskView, _>(
            ClientErrorView::InvalidDiscovery("external object exceeds the fragment safety limit"@),
        ),
        object.seen.len() < 4096 && object.seen.contains(object.requested) ==> object_ask(
            object,
            address,
        ) == Err::<AskView, _>(
            ClientErrorView::InvalidDiscovery("external object contains a fragment loop"@),
        ),
        object_ask(object, address) matches Err(error) ==> object_reply(object, content) == Err::<
            Progress<ExternalObjectView, Seq<u8>>,
            _,
        >(error),
{
}

/// A text that ends in a dot and a number is no string OID; one that ends in a dot alone may be.
pub proof fn law_numbered_text_is_no_string_oid(text: Seq<char>, dot: int)
    requires
        0 <= dot < text.len() - 1,
        text[dot] == '.',
        forall|i: int| dot < i < text.len() ==> '0' <= #[trigger] text[i] <= '9',
    ensures
        !is_string_oid(text),
{
    assert(digits_after(text, dot));
}

/// Every other text of letters that starts with one is a string OID.
pub proof fn law_plain_text_is_a_string_oid(text: Seq<char>)
    requires
        0 < text.len() <= 254,
        forall|i: int|
            0 <= i < text.len() ==> ('a' <= #[trigger] text[i] <= 'z' || 'A' <= text[i] <= 'Z'
                || text[i] == '_' || text[i] == '.'),
        text[0] != '.',
    ensures
        is_string_oid(text),
{
    assert forall|dot: int| !digits_after(text, dot) by {
        if 0 <= dot < text.len() - 1 {
            assert(!is_digit(text[dot + 1]));
        }
    }
}

} // verus!
