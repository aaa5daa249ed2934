//! Laws of the words that are told: names of types and constraints, meanings of codes, and what is
//! said of answers that cannot be used.

use crate::catalog::{scope_error, CatalogView, MenuPathView, MenuView, ResolveErrorView};
use crate::cli::error::{kind_of, CliErrorView};
use crate::cli::guidance::{candidates_text, guidance_of};
use crate::cli::output::special_of;
use crate::client::error::{answered, code_text, ClientErrorView};
use crate::client::fetch::{object_reply, ExternalObjectView, Progress};
use crate::client::menus::{
    group_event, menu_reply, FoundGroupView, GroupFetchView, GroupStageView, MenuFetchView,
    MenuStageView,
};
use crate::client::oids::{
    menu_string_reply, numeric_reply, string_reply, MenuStringOidsView, NumericOidsView,
    StringOidsView,
};
use crate::csv_output::{constraint_text, path_text, type_text};
use crate::model::{ConstraintView, ParameterType};
use crate::number::{float_number, Real};
use crate::protocol::error::ProtocolErrorView;
use crate::protocol::response::{
    parsed_fragment, parsed_group_name, parsed_menu, parsed_menu_count, parsed_menu_oids,
    parsed_menu_string_page, parsed_numeric_page, parsed_string_page,
};
use crate::text::decimal;
use crate::value::{value_error_text, ValueErrorView};
use vstd::prelude::*;

verus! {

/// Each type has its name; one that is not known has its number.
pub proof fn law_names_of_types(parameter_type: ParameterType)
    ensures
        type_text(parameter_type) == match parameter_type {
            ParameterType::Int16 => "int16"@,
            ParameterType::Int32 => "int32"@,
            ParameterType::Float32 => "float32"@,
            ParameterType::String { .. } => "string"@,
            ParameterType::Int16Array { .. } => "int16_array"@,
            ParameterType::Int32Array { .. } => "int32_array"@,
            ParameterType::Float32Array { .. } => "float32_array"@,
            ParameterType::StringArray { .. } => "string_array"@,
            ParameterType::Binary => "binary"@,
            ParameterType::Unsupported { type_id } => "type_"@ + decimal(type_id as nat),
        },
{
}

/// Each kind of constraint has its name.
pub proof fn law_names_of_constraints(constraint: ConstraintView)
    ensures
        constraint is Unconstrained ==> constraint_text(constraint) == "unconstrained"@,
        constraint is Choice ==> constraint_text(constraint) == "choice"@,
        constraint is StringChoice ==> constraint_text(constraint) == "string_choice"@,
        constraint is Range ==> constraint_text(constraint) == "range"@,
        constraint is AlarmTable ==> constraint_text(constraint) == "alarm_table"@,
        constraint is External ==> constraint_text(constraint) == "external_resolved"@,
        constraint is Unsupported ==> constraint_text(constraint) == "unsupported"@,
{
}

/// A path is told as the name of the menu, with the group in brackets exactly where it is needed.
pub proof fn law_words_of_a_path(path: MenuPathView)
    ensures
        path_text(path) == if path.group_required {
            path.menu + seq![' ', '('] + path.group + seq![')']
        } else {
            path.menu
        },
{
    reveal_strlit(" (");
    reveal_strlit(")");
    assert(" ("@ =~= seq![' ', '(']);
    assert(")"@ =~= seq![')']);
}

/// Each return code has its meaning.
pub proof fn law_meanings_of_codes(code: u8)
    ensures
        code == 0x01 ==> code_text(code) == "unsupported message"@,
        code == 0x02 ==> code_text(code) == "invalid message length"@,
        code == 0x03 ==> code_text(code) == "request denied"@,
        code == 0x11 ==> code_text(code) == "parameter not found"@,
        code == 0x12 ==> code_text(code) == "bad or out-of-range value"@,
        code == 0x13 ==> code_text(code) == "read-only parameter"@,
        code == 0x14 ==> code_text(code) == "parameter locked"@,
        code == 0x15 ==> code_text(code) == "bad array index"@,
        4 <= code <= 0x10 || code > 0x15 ==> code_text(code) == "unknown remote error"@,
{
}

/// The refusal of a device is told with its code and what that means; any other fault of a response
/// is one of the protocol.
pub proof fn law_faults_of_responses<T>(result: Result<T, ProtocolErrorView>)
    ensures
        match result {
            Ok(value) => answered(result) == Ok::<_, ClientErrorView>(value),
            Err(ProtocolErrorView::Remote(code)) => answered(result) == Err::<T, _>(
                ClientErrorView::Remote { code, description: code_text(code) },
            ),
            Err(error) => answered(result) == Err::<T, _>(ClientErrorView::Protocol(error)),
        },
{
}

/// An answer about another group or menu than was asked for is refused in words that say so.
pub proof fn law_answers_about_other_menus_are_refused(
    group: u8,
    menu: u8,
    name: Seq<char>,
    stage: MenuStageView,
    content: Seq<u8>,
)
    ensures
        parsed_group_name(content) matches Ok(answer) ==> (answer.group != group ==> group_event(
            GroupFetchView { group, stage: GroupStageView::Name },
            Ok(content),
        ) == Err::<Progress<GroupFetchView, FoundGroupView>, _>(
            ClientErrorView::InvalidDiscovery(
                "menu group name response does not match its request"@,
            ),
        )),
        parsed_menu_count(content) matches Ok(answer) ==> (answer.group != group ==> group_event(
            GroupFetchView { group, stage: GroupStageView::Count(name) },
            Ok(content),
        ) == Err::<Progress<GroupFetchView, FoundGroupView>, _>(
            ClientErrorView::InvalidDiscovery("menu count response does not match its request"@),
        )),
        stage is Name ==> (parsed_menu(content) matches Ok(answer) ==> (answer.group != group
            || answer.menu != menu ==> menu_reply(MenuFetchView { group, menu, stage }, content)
            == Err::<Progress<MenuFetchView, MenuView>, _>(
            ClientErrorView::InvalidDiscovery("menu name response does not match its request"@),
        ))),
        stage is Numbers ==> (parsed_menu_oids(content) matches Ok(answer) ==> (answer.group
            != group || answer.menu != menu ==> menu_reply(
            MenuFetchView { group, menu, stage },
            content,
        ) == Err::<Progress<MenuFetchView, MenuView>, _>(
            ClientErrorView::InvalidDiscovery("menu OID response does not match its request"@),
        ))),
{
}

/// A page that is not the one that was asked for is refused in words that say so.
pub proof fn law_other_pages_are_refused(
    numeric: NumericOidsView,
    string: StringOidsView,
    menu: MenuStringOidsView,
    content: Seq<u8>,
)
    ensures
        parsed_numeric_page(content) matches Ok(page) ==> (page.first != numeric.found.len()
            || page.oids.len() == 0 ==> numeric_reply(numeric, content) == Err::<
            NumericOidsView,
            _,
        >(ClientErrorView::InvalidDiscovery("device returned an invalid numeric OID page"@))),
        parsed_string_page(content) matches Ok(page) ==> (page.first != string.found.len()
            || page.oids.len() == 0 ==> string_reply(string, content) == Err::<StringOidsView, _>(
            ClientErrorView::InvalidDiscovery("device returned an invalid string OID page"@),
        )),
        parsed_menu_string_page(content) matches Ok(page) ==> (page.group != menu.group || page.menu
            != menu.menu || page.first != menu.found.len() || page.oids.len() == 0
            ==> menu_string_reply(menu, content) == Err::<MenuStringOidsView, _>(
            ClientErrorView::InvalidDiscovery("menu string OID page does not match its request"@),
        )),
{
}

/// Fragments of another object, out of turn or too many bytes are refused in words that say so.
pub proof fn law_other_fragments_are_refused(object: ExternalObjectView, content: Seq<u8>)
    requires
        object.seen.len() < 4096,
        !object.seen.contains(object.requested),
    ensures
        parsed_fragment(content) matches Ok(fragment) ==> {
            let expected = fragment.oid == object.object_id && fragment.fragment
                == object.requested;
            &&& !expected ==> object_reply(object, content) == Err::<
                Progress<ExternalObjectView, Seq<u8>>,
                _,
            >(
                ClientErrorView::InvalidDiscovery(
                    "external object response does not match its request"@,
                ),
            )
            &&& expected && object.bytes.len() + fragment.data.len() > 1024 * 1024 ==> object_reply(
                object,
                content,
            ) == Err::<Progress<ExternalObjectView, Seq<u8>>, _>(
                ClientErrorView::InvalidDiscovery("external object exceeds the 1 MiB safety limit"@),
            )
        },
{
}

/// Where menus are not known the reason is told that discovery gave, or one that says what is
/// missing.
pub proof fn law_words_about_unknown_menus(catalog: CatalogView, group_name: Option<Seq<char>>)
    ensures
        scope_error(catalog, group_name) matches Some(error) ==> (
        error matches ResolveErrorView::MenusUnavailable(reason)
            && match catalog.menu_discovery_error {
            Some(given) => reason == given,
            None => reason == "a menu group name is unavailable"@ || reason
                == "menu discovery is incomplete"@,
        }),
        catalog.incomplete_menu_groups.len() == 0 ==> scope_error(catalog, group_name) is None,
{
}

/// A label that may mean several values is told in words that say so.
pub proof fn law_words_about_an_ambiguous_label(text: Seq<char>)
    ensures
        value_error_text(ValueErrorView::AmbiguousChoice(text)) == "choice label is ambiguous: "@
            + text,
{
}

/// The kinds of failures, for scripts.
pub proof fn law_kinds_of_failures(error: CliErrorView)
    ensures
        error is Usage ==> kind_of(error) == "usage"@,
        error is Value ==> kind_of(error) == "value"@,
        error is Json || error is CsvOutput || error is Io ==> kind_of(error) == "output"@,
        error matches CliErrorView::Resolve(inner) ==> kind_of(error) == kind_of(
            CliErrorView::Client(ClientErrorView::Resolve(inner)),
        ) && kind_of(error) == match inner {
            ResolveErrorView::NotFound(_) => "parameter_not_found"@,
            ResolveErrorView::ParameterNotFoundInMenu { .. } => "parameter_not_found"@,
            ResolveErrorView::MenuNotFound { .. } => "menu_not_found"@,
            ResolveErrorView::AmbiguousDisplayName { .. } => "ambiguous_parameter"@,
            ResolveErrorView::AmbiguousMenu { .. } => "ambiguous_menu"@,
            ResolveErrorView::AmbiguousGroup { .. } => "ambiguous_group"@,
            ResolveErrorView::MenusUnavailable(_) => "menu_unavailable"@,
        },
        error matches CliErrorView::Client(inner) ==> (!(inner is Resolve) ==> kind_of(error)
            == match inner {
            ClientErrorView::AuthenticationRequired => "authentication_required"@,
            ClientErrorView::ConnectionInUse => "connection_in_use"@,
            ClientErrorView::HandshakeRejected { .. } => "handshake_rejected"@,
            ClientErrorView::Timeout { .. } => "timeout"@,
            ClientErrorView::Remote { .. } => "remote_error"@,
            _ => "client"@,
        }),
{
}

/// A float that JSON cannot hold has a name, and no other has.
pub proof fn law_names_of_special_floats(bits: u32)
    ensures
        match float_number(bits) {
            Real::NotANumber => special_of(bits) == Some("nan"@),
            Real::Infinite => special_of(bits) == Some("infinity"@),
            Real::NegInfinite => special_of(bits) == Some("negative_infinity"@),
            Real::Finite(_) => special_of(bits) is None,
        },
{
}

/// Where several menus may be meant, each is told with its group, and where several groups may be,
/// each with its number. Other failures about menus are told without help.
pub proof fn law_help_with_menus(error: ResolveErrorView, i: int)
    ensures
        error matches ResolveErrorView::AmbiguousMenu { candidates, .. } ==> {
            let lines = guidance_of(CliErrorView::Resolve(error));
            &&& lines.len() == candidates.len() + 1
            &&& 0 <= i < candidates.len() ==> lines[i + 1] == seq![' ', ' '] + candidates[i].group
                + seq![' ', '/', ' '] + candidates[i].menu
        },
        error matches ResolveErrorView::AmbiguousGroup { candidates, .. } ==> {
            let lines = guidance_of(CliErrorView::Resolve(error));
            &&& lines.len() == candidates.len() + 1
            &&& 0 <= i < candidates.len() ==> lines[i + 1] == "  group "@ + decimal(
                candidates[i].group_index as nat,
            ) + ": "@ + candidates[i].group
        },
        error matches ResolveErrorView::AmbiguousDisplayName { candidates, .. } ==> guidance_of(
            CliErrorView::Resolve(error),
        ) == seq![candidates_text(candidates)],
        error is NotFound || error is MenuNotFound || error is MenusUnavailable
            || error is ParameterNotFoundInMenu ==> guidance_of(CliErrorView::Resolve(error)).len()
            == 0,
        guidance_of(CliErrorView::Client(ClientErrorView::Resolve(error))) == guidance_of(
            CliErrorView::Resolve(error),
        ),
{
    reveal_strlit("  ");
    reveal_strlit(" / ");
    assert("  "@ =~= seq![' ', ' ']);
    assert(" / "@ =~= seq![' ', '/', ' ']);
    if let ResolveErrorView::AmbiguousDisplayName { candidates, .. } = error {
        assert(guidance_of(CliErrorView::Resolve(error)) =~= seq![candidates_text(candidates)]);
    }
}

} // verus!
