//! Laws of commands: what they list, write and print, and how they end.

use super::guidance::lemma_kept;
use super::naming::law_catalog_needs_distinct_oids;
use super::output::distinct;
use crate::catalog::{members_among, resolved_menu, CatalogView, ResolveErrorView};
use crate::cli::command::{
    commanded, direct, listed, operational, selection, slot_of, value_to_write,
};
use crate::cli::error::{exit_code_of, name_text, CliErrorView};
use crate::cli::info::{
    field_text, info_of, info_text, numeric_count, recorded, warned, warnings_after, InfoView,
    WarningView,
};
use crate::cli::output::{alarm_names, result_text, shown};
use crate::client::access::{read_result_of, write_result_of, ReadResultView};
use crate::client::error::{client_error_text, ClientErrorView};
use crate::client::exchange::slot_address;
use crate::csv_output::raw_text;
use crate::model::{
    interpreted, oid_text, Access, ActiveAlarmView, AlarmDisplayView, DisplayNumberView,
    DisplayView, IdentityView, OidView, ParameterRole, ParameterView, SelectorView, ValueView,
};
use crate::number::Float64;
use crate::text::{decimal, joined, unsigned_value};
use crate::value::{parsed_text, ValueErrorView};
use vstd::prelude::*;

verus! {

/// A slot is a decimal number from 1 to 20, and has the address 16 above it.
pub proof fn law_slot_is_a_number_from_1_to_20(text: Seq<char>, slot: u8)
    ensures
        slot_of(text) == Ok::<u8, Seq<char>>(slot) <==> unsigned_value(text, 10) == Some(
            slot as nat,
        ) && 1 <= slot <= 20,
        slot_of(text) is Ok <==> (unsigned_value(text, 10) matches Some(n) && 1 <= n <= 20),
        1 <= slot <= 20 ==> slot_address(slot) == 16 + slot,
{
}

/// A list of all holds every parameter, in order. A table of all leaves out the layout, and nothing
/// else.
pub proof fn law_list_of_all(
    catalog: CatalogView,
    group: Option<Seq<char>>,
    parameter: ParameterView,
)
    ensures
        listed(catalog, group, None, None, false) == Ok::<_, ResolveErrorView>(catalog.parameters),
        listed(catalog, group, None, None, true) matches Ok(table) && (table.contains(parameter)
            <==> catalog.parameters.contains(parameter) && parameter.role
            == ParameterRole::Operational),
{
    let all = catalog.parameters;
    let table = all.filter(operational());
    lemma_filtered(all, operational());
    if all.contains(parameter) && parameter.role == ParameterRole::Operational {
        let i = choose|i: int| 0 <= i < all.len() && all[i] == parameter;
        lemma_kept(all, operational(), i);
    }
    if table.contains(parameter) {
        let k = choose|k: int| 0 <= k < table.len() && table[k] == parameter;
        assert(operational()(table[k]));
    }
}

proof fn lemma_filtered<T>(items: Seq<T>, keep: spec_fn(T) -> bool)
    ensures
        forall|k: int|
            0 <= k < items.filter(keep).len() ==> keep(#[trigger] items.filter(keep)[k])
                && items.contains(items.filter(keep)[k]),
    decreases items.len(),
{
    reveal(Seq::filter);
    if items.len() > 0 {
        let front = items.drop_last();
        let before = front.filter(keep);
        let all = items.filter(keep);
        lemma_filtered(front, keep);
        assert forall|k: int| 0 <= k < all.len() implies keep(#[trigger] all[k])
            && items.contains(all[k]) by {
            if k < before.len() {
                assert(all[k] == before[k]);
                let i = choose|i: int| 0 <= i < front.len() && front[i] == before[k];
                assert(items[i] == all[k]);
            } else {
                assert(items[items.len() - 1] == all[k]);
            }
        }
    }
}

/// A list of a menu holds its members, layout or not, and a list of one parameter that one: the
/// one that reads and writes would be about.
pub proof fn law_list_of_some(
    catalog: CatalogView,
    group: Option<Seq<char>>,
    menu: Seq<char>,
    selector: SelectorView,
    table: bool,
)
    ensures
        match resolved_menu(catalog, group, menu) {
            Ok(place) => listed(catalog, group, Some(menu), None, table) == Ok::<
                _,
                ResolveErrorView,
            >(members_among(catalog.parameters, place.1.members)),
            Err(error) => listed(catalog, group, Some(menu), None, table) == Err::<
                Seq<ParameterView>,
                _,
            >(error),
        },
        forall|scope: Option<Seq<char>>|
            match #[trigger] commanded(catalog, group, scope, selector) {
                Ok(parameter) => listed(catalog, group, scope, Some(selector), table) == Ok::<
                    _,
                    ResolveErrorView,
                >(seq![parameter]),
                Err(error) => listed(catalog, group, scope, Some(selector), table) == Err::<
                    Seq<ParameterView>,
                    _,
                >(error),
            },
{
}

/// What is selected keeps the menus of the whole, and what failed.
pub proof fn law_selection_keeps_the_menus(catalog: CatalogView, parameters: Seq<ParameterView>)
    ensures
        selection(catalog, parameters) is Ok <==> distinct(parameters),
        selection(catalog, parameters) matches Ok(selected) ==> selected.parameters == parameters
            && selected.menus == catalog.menus && selected.menu_discovery_error
            == catalog.menu_discovery_error && selected.incomplete_menu_groups
            == catalog.incomplete_menu_groups,
{
    law_catalog_needs_distinct_oids(parameters);
}

/// A command writes the value that its text means, to a parameter that may be written. Without a
/// text it ends with a usage error, and to a read-only parameter it never writes.
pub proof fn law_command_writes_what_the_text_means(
    parameter: ParameterView,
    text: Option<Seq<char>>,
    value: ValueView,
)
    ensures
        value_to_write(parameter, text) == Ok::<_, CliErrorView>(value) <==> parameter.access
            == Access::ReadWrite && (text matches Some(text) && parsed_text(parameter, text) == Ok::<
            _,
            ValueErrorView,
        >(value)),
        value_to_write(parameter, text) matches Err(error) ==> exit_code_of(error) == (
        if parameter.access == Access::ReadOnly {
            5int
        } else if text is None {
            2int
        } else {
            4int
        }),
{
}

/// A command that fails ends with 2 where it was used wrongly, with 4 where a name or a value was
/// wrong, with 5 where the device or the connection failed, and with 6 where the output did.
pub proof fn law_status_of_a_failure(error: CliErrorView)
    ensures
        exit_code_of(error) == 2 <==> error is Usage,
        exit_code_of(error) == 4 <==> error is Value || error is Resolve || (
        error matches CliErrorView::Client(inner) && inner is Resolve),
        exit_code_of(error) == 5 <==> (error matches CliErrorView::Client(inner) && !(
        inner is Resolve)),
        exit_code_of(error) == 6 <==> error is Json || error is CsvOutput || error is Io,
{
}

/// A label is shown, and behind it the stored value where that is an integer.
pub proof fn law_label_is_shown(value: ValueView, label: Seq<char>)
    requires
        label.len() > 0,
    ensures
        ({
            let text = shown(value, Some(DisplayView::Label { value: label }));
            if value is Int16 || value is Int32 {
                text == label + " (raw_value="@ + raw_text(value) + ")"@
            } else {
                text == label
            }
        }),
{
}

/// Several labels are shown with strokes between them, and the stored value behind them.
pub proof fn law_aliases_are_shown(value: ValueView, labels: Seq<Seq<char>>)
    requires
        forall|i: int| 0 <= i < labels.len() ==> (#[trigger] labels[i]).len() > 0,
    ensures
        shown(value, Some(DisplayView::Aliases { values: labels })) == joined(labels, " / "@)
            + " (raw_value="@ + raw_text(value) + ")"@,
{
    let names = labels.map_values(|label: Seq<char>| name_text(label));
    assert(names =~= labels);
}

/// A place on the display scale is shown as it is formatted, and a value without any other form as
/// it is stored.
pub proof fn law_number_is_shown(value: ValueView, number: Float64, formatted: Seq<char>)
    ensures
        shown(value, Some(DisplayView::Numeric { value: number, formatted })) == formatted,
        shown(value, None) == raw_text(value),
{
}

/// The names of all active alarms are shown, in order, and behind them the bits that no alarm has;
/// where there are none it is said that there are none.
pub proof fn law_alarms_are_shown(
    value: ValueView,
    active: Seq<ActiveAlarmView>,
    unknown_mask: u32,
    i: int,
)
    ensures
        ({
            let names = alarm_names(active, unknown_mask);
            let text = shown(
                value,
                Some(DisplayView::Alarms { value: AlarmDisplayView { active, unknown_mask } }),
            );
            &&& 0 <= i < active.len() ==> names[i] == active[i].name
            &&& names.len() == active.len() + (if unknown_mask == 0 {
                0int
            } else {
                1int
            })
            &&& names.len() > 0 ==> text == joined(names, ", "@)
            &&& names.len() == 0 ==> text == "No active alarms"@
        }),
{
}

/// The line about a value names the parameter by its OID and its name, and then the value.
pub proof fn law_result_names_the_parameter(
    parameter: IdentityView,
    value: ValueView,
    display: Option<DisplayView>,
)
    requires
        parameter.display_name.len() > 0,
    ensures
        result_text(parameter, value, display) == oid_text(parameter.oid) + seq![' ', '(']
            + parameter.display_name + seq![')', ':', ' '] + shown(value, display),
{
    reveal_strlit(" (");
    reveal_strlit("): ");
    assert(" ("@ =~= seq![' ', '(']);
    assert("): "@ =~= seq![')', ':', ' ']);
}

/// A parameter that is given by its OID alone is read without a discovery, and no other is.
pub proof fn law_oid_alone_needs_no_discovery(
    group: Option<Seq<char>>,
    menu: Option<Seq<char>>,
    selector: SelectorView,
    oid: OidView,
)
    ensures
        direct(group, menu, selector) == Some(oid) <==> selector == SelectorView::Oid(oid) && group
            is None && menu is None,
{
}

/// What was read is reported of the parameter that was asked for: the value as it came, and how it
/// is shown.
pub proof fn law_read_reports_what_came(
    parameter: ParameterView,
    value: ValueView,
    number: Option<DisplayNumberView>,
)
    ensures
        ({
            let result = read_result_of(parameter, value, number);
            &&& result.parameter.oid == parameter.oid
            &&& result.parameter.display_name == parameter.display_name
            &&& result.value == value
            &&& result.display_value == interpreted(parameter, value, number)
        }),
{
}

/// What was written is reported of the parameter that was written: the value that was asked for,
/// and the value that the device answered with, which is the one that is shown.
pub proof fn law_write_reports_both_values(
    parameter: ParameterView,
    requested: ValueView,
    value: ValueView,
    number: Option<DisplayNumberView>,
)
    ensures
        ({
            let result = write_result_of(parameter, requested, value, number);
            &&& result.parameter.oid == parameter.oid
            &&& result.parameter.display_name == parameter.display_name
            &&& result.requested_value == requested
            &&& result.value == value
            &&& result.display_value == interpreted(parameter, value, number)
        }),
{
}

/// The parameters of a device are counted by the kinds of their OIDs, and each is counted once.
pub proof fn law_parameters_are_counted(
    parameters: Seq<ParameterView>,
    host: Seq<char>,
    slot: u8,
    fields: Seq<Option<Seq<char>>>,
    warnings: Seq<WarningView>,
)
    requires
        fields.len() == 4,
    ensures
        ({
            let info = info_of(
                parameters,
                host,
                slot,
                fields[0],
                fields[1],
                fields[2],
                fields[3],
                warnings,
            );
            &&& info.total_parameters == parameters.len()
            &&& info.numeric_parameters + info.string_parameters == parameters.len()
            &&& info.numeric_parameters == parameters.filter(
                |parameter: ParameterView| parameter.oid is Numeric,
            ).len()
            &&& info.host == host && info.slot == slot
            &&& info.product_name == fields[0] && info.software_revision == fields[1]
            &&& info.supplier_name == fields[2] && info.serial_number == fields[3]
            &&& info.warnings == warnings
        }),
{
    lemma_numeric_count(parameters);
}

proof fn lemma_numeric_count(parameters: Seq<ParameterView>)
    ensures
        numeric_count(parameters) == parameters.filter(
            |parameter: ParameterView| parameter.oid is Numeric,
        ).len(),
        numeric_count(parameters) <= parameters.len(),
    decreases parameters.len(),
{
    reveal(Seq::filter);
    if parameters.len() > 0 {
        lemma_numeric_count(parameters.drop_last());
    }
}

/// A field that was read is told as it is stored. One that could not be read is told as invalid and
/// warned about, with the reason; one that the device does not have is told as unknown.
pub proof fn law_fields_of_a_device(
    warnings: Seq<WarningView>,
    field: Seq<char>,
    oid: OidView,
    result: Result<ReadResultView, ClientErrorView>,
    info: InfoView,
)
    ensures
        match result {
            Ok(read) => recorded(result) == Some(raw_text(read.value)) && warnings_after(
                warnings,
                field,
                oid,
                result,
            ) == warnings,
            Err(error) => recorded(result) is None && warnings_after(warnings, field, oid, result)
                == warnings + seq![
                WarningView { field, oid, message: client_error_text(error) },
            ] && warned(warnings_after(warnings, field, oid, result), field),
        },
        forall|value: Seq<char>| #[trigger] field_text(info, field, Some(value)) == value,
        warned(info.warnings, field) ==> field_text(info, field, None) == "invalid"@,
        !warned(info.warnings, field) ==> field_text(info, field, None) == "unknown"@,
{
    if let Err(error) = result {
        let warning = WarningView { field, oid, message: client_error_text(error) };
        assert(warnings.push(warning) =~= warnings + seq![warning]);
        assert(warnings.push(warning)[warnings.len() as int].field == field);
    }
}

/// What is told of a device has a line for each of its fields and counts, and then one for each
/// warning.
pub proof fn law_lines_about_a_device(info: InfoView, i: int)
    ensures
        ({
            let lines = info_text(info);
            &&& lines[0] == "Product:       "@ + field_text(info, "Product"@, info.product_name)
            &&& lines[1] == "Software:      "@ + field_text(
                info,
                "Software"@,
                info.software_revision,
            )
            &&& lines[2] == "Supplier:      "@ + field_text(info, "Supplier"@, info.supplier_name)
            &&& lines[3] == "Serial:        "@ + field_text(info, "Serial"@, info.serial_number)
            &&& lines[4] == "Host:          "@ + info.host
            &&& lines[5] == "Slot:          "@ + decimal(info.slot as nat)
            &&& lines[6] == "Parameters:    "@ + decimal(info.total_parameters)
            &&& lines[7] == "Numeric OIDs:  "@ + decimal(info.numeric_parameters)
            &&& lines[8] == "String OIDs:   "@ + decimal(info.string_parameters)
            &&& info.warnings.len() == 0 ==> lines.len() == 9
            &&& info.warnings.len() > 0 ==> lines.len() == 10 + info.warnings.len()
            &&& 0 <= i < info.warnings.len() ==> lines[10 + i] == "  "@ + info.warnings[i].field
                + " ("@ + oid_text(info.warnings[i].oid) + "): "@ + info.warnings[i].message
        }),
{
}

} // verus!
