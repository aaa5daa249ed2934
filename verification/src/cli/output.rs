//! What is printed of parameters and values.

use super::error::{name_text, visible_name};
use crate::catalog::{paths_of, CatalogView, DeviceCatalog};
use crate::csv_output::{
    access_name, access_text, join_paths, parameter_type_name, path_texts, possible_values_lines,
    raw_text, raw_value, type_text, value_lines,
};
use crate::model::{
    oid_text, ActiveAlarmView, DisplayValue, DisplayView, IdentityView, Parameter,
    ParameterIdentity, ParameterValue, ParameterView, ValueView,
};
use crate::number::{float_number, number_of_float, Number, Real};
use crate::table::{column_width, length_of, padded, push_padded};
use crate::text::{concat, hex, join, joined, push_hex, push_line, push_radix, radix_text};
use crate::views::{option_view, views};
use vstd::prelude::*;
use vstd::string::*;

verus! {

/// A text with the value as it is stored.
pub open spec fn with_raw(text: Seq<char>, value: ValueView) -> Seq<char> {
    text + " (raw_value="@ + raw_text(value) + ")"@
}

/// The names of the active alarms, and the bits that no alarm has.
pub open spec fn alarm_names(active: Seq<ActiveAlarmView>, unknown_mask: u32) -> Seq<Seq<char>> {
    let names = active.map_values(|alarm: ActiveAlarmView| alarm.name);
    if unknown_mask == 0 {
        names
    } else {
        names.push("unknown bits 0x"@ + radix_text(unknown_mask as nat, 16, true))
    }
}

/// A value for people: by its label, its alarms or its place on the display scale where it has
/// them. Integers with a label are also shown as they are stored.
pub open spec fn shown(value: ValueView, display: Option<DisplayView>) -> Seq<char> {
    match display {
        Some(DisplayView::Label { value: label }) => match value {
            ValueView::Int16 { .. } => with_raw(name_text(label), value),
            ValueView::Int32 { .. } => with_raw(name_text(label), value),
            _ => name_text(label),
        },
        Some(DisplayView::Aliases { values }) => with_raw(
            joined(values.map_values(|label: Seq<char>| name_text(label)), " / "@),
            value,
        ),
        Some(DisplayView::Numeric { formatted, .. }) => formatted,
        Some(DisplayView::Alarms { value: alarms }) => if alarms.active.len() == 0
            && alarms.unknown_mask == 0 {
            "No active alarms"@
        } else {
            joined(alarm_names(alarms.active, alarms.unknown_mask), ", "@)
        },
        None => raw_text(value),
    }
}

fn append_raw(text: &str, value: &ParameterValue) -> (r: String)
    ensures
        r@ == with_raw(text@, value@),
{
    concat(&concat(&concat(text, " (raw_value="), &raw_value(value)), ")")
}

/// A value for people.
pub fn display_result(value: &ParameterValue, display: Option<&DisplayValue>) -> (r: String)
    ensures
        r@ == shown(value@, option_view(display)),
{
    match display {
        Some(DisplayValue::Label { value: label }) => match value {
            ParameterValue::Int16 { .. } => append_raw(visible_name(label), value),
            ParameterValue::Int32 { .. } => append_raw(visible_name(label), value),
            _ => visible_name(label).to_owned(),
        },
        Some(DisplayValue::Aliases { values }) => {
            let mut names: Vec<String> = Vec::new();
            let mut i: usize = 0;
            let ghost all = views(values@).map_values(|label: Seq<char>| name_text(label));
            while i < values.len()
                invariant
                    i <= values@.len(),
                    all == views(values@).map_values(|label: Seq<char>| name_text(label)),
                    views(names@) =~= all.take(i as int),
                decreases values@.len() - i,
            {
                let name = visible_name(&values[i]).to_owned();
                assert(name@ == all[i as int]);
                let ghost before = names@;
                let ghost view = name@;
                names.push(name);
                assert(views(names@) =~= views(before).push(view));
                i += 1;
            }
            assert(views(names@) =~= all);
            append_raw(&join(&names, " / "), value)
        },
        Some(DisplayValue::Numeric { formatted, .. }) => formatted.clone(),
        Some(DisplayValue::Alarms { value: alarms }) => {
            if alarms.active.len() == 0 && alarms.unknown_mask == 0 {
                return "No active alarms".to_owned();
            }
            let mut names: Vec<String> = Vec::new();
            let mut i: usize = 0;
            let ghost all = views(alarms.active@).map_values(|alarm: ActiveAlarmView| alarm.name);
            while i < alarms.active.len()
                invariant
                    i <= alarms.active@.len(),
                    all == views(alarms.active@).map_values(|alarm: ActiveAlarmView| alarm.name),
                    views(names@) =~= all.take(i as int),
                decreases alarms.active@.len() - i,
            {
                let name = alarms.active[i].name.clone();
                assert(name@ == all[i as int]);
                let ghost before = names@;
                names.push(name);
                assert(views(names@) =~= views(before).push(name@));
                i += 1;
            }
            assert(views(names@) =~= all);
            if alarms.unknown_mask != 0 {
                let mut text = "unknown bits 0x".to_owned();
                push_radix(&mut text, alarms.unknown_mask as u64, 16, true);
                let ghost before = names@;
                let ghost view = text@;
                names.push(text);
                assert(views(names@) =~= views(before).push(view));
            }
            join(&names, ", ")
        },
        None => raw_value(value),
    }
}

/// The line that says which value a parameter has.
pub open spec fn result_text(
    parameter: IdentityView,
    value: ValueView,
    display: Option<DisplayView>,
) -> Seq<char> {
    oid_text(parameter.oid) + " ("@ + name_text(parameter.display_name) + "): "@ + shown(
        value,
        display,
    )
}

/// The line that says which value a parameter has.
pub fn result_line(
    parameter: &ParameterIdentity,
    value: &ParameterValue,
    display: Option<&DisplayValue>,
) -> (r: String)
    ensures
        r@ == result_text(parameter@, value@, option_view(display)),
{
    let mut line = parameter.oid.to_string();
    line.append(" (");
    line.append(visible_name(&parameter.display_name));
    line.append("): ");
    line.append(&display_result(value, display));
    line
}

/// The name of a float that JSON cannot hold.
pub open spec fn special_of(bits: u32) -> Option<Seq<char>> {
    match float_number(bits) {
        Real::NotANumber => Some("nan"@),
        Real::Infinite => Some("infinity"@),
        Real::NegInfinite => Some("negative_infinity"@),
        Real::Finite(_) => None,
    }
}

/// The name of a float that JSON cannot hold.
pub fn special_float(bits: u32) -> (r: Option<&'static str>)
    ensures
        option_view(r) == special_of(bits),
{
    match number_of_float(bits) {
        Number::NotANumber => Some("nan"),
        Number::Infinite => Some("infinity"),
        Number::NegInfinite => Some("negative_infinity"),
        Number::Finite(_) => None,
    }
}

/// The bits of a float in hexadecimal.
pub fn float_bits_text(bits: u32) -> (r: String)
    ensures
        r@ == "0x"@ + hex(bits as nat, 8, true),
{
    let mut text = "0x".to_owned();
    push_hex(&mut text, bits as u64, 8, true);
    text
}

/// The menus of a parameter in a table cell.
pub open spec fn menus_cell(catalog: CatalogView, parameter: ParameterView) -> Seq<char> {
    let text = joined(path_texts(paths_of(catalog, parameter)), ", "@);
    if text.len() == 0 {
        "-"@
    } else {
        text
    }
}

/// The cells of a parameter: its OID, its name, its menus and its type.
pub open spec fn parameter_cells(catalog: CatalogView, parameter: ParameterView) -> Seq<Seq<char>> {
    seq![
        oid_text(parameter.oid),
        name_text(parameter.display_name),
        menus_cell(catalog, parameter),
        type_text(parameter.parameter_type),
    ]
}

/// The cells of each parameter.
pub open spec fn all_cells(catalog: CatalogView, parameters: Seq<ParameterView>) -> Seq<
    Seq<Seq<char>>,
> {
    parameters.map_values(|parameter: ParameterView| parameter_cells(catalog, parameter))
}

/// A line of cells with two blanks between them: the first as it is, the next three up to the
/// widths of their columns, and the last.
pub open spec fn cells_line(cells: Seq<Seq<char>>, widths: Seq<nat>, last: Seq<char>) -> Seq<char> {
    cells[0] + "  "@ + padded(cells[1], widths[1]) + "  "@ + padded(cells[2], widths[2]) + "  "@
        + padded(cells[3], widths[3]) + "  "@ + last
}

/// The widths of the columns.
pub open spec fn cell_widths(rows: Seq<Seq<Seq<char>>>) -> Seq<nat> {
    seq![
        column_width("OID"@, rows, 0),
        column_width("DISPLAY NAME"@, rows, 1),
        column_width("MENU"@, rows, 2),
        column_width("TYPE"@, rows, 3),
    ]
}

/// The lines of a parameter: its cells, and the table of its values where it has one.
pub open spec fn parameter_lines(
    catalog: CatalogView,
    parameter: ParameterView,
    widths: Seq<nat>,
) -> Seq<Seq<char>> {
    seq![
        cells_line(parameter_cells(catalog, parameter), widths, access_text(parameter.access)),
    ] + match value_lines(parameter) {
        Some(lines) => seq!["  Possible values:"@] + lines.map_values(
            |line: Seq<char>| "    "@ + line,
        ),
        None => seq![],
    }
}

/// The header, and the lines of each parameter.
pub open spec fn listing(
    catalog: CatalogView,
    parameters: Seq<ParameterView>,
    widths: Seq<nat>,
) -> Seq<Seq<char>>
    decreases parameters.len(),
{
    if parameters.len() == 0 {
        seq![
            cells_line(
                seq![padded("OID"@, widths[0]), "DISPLAY NAME"@, "MENU"@, "TYPE"@],
                widths,
                "ACCESS"@,
            ),
        ]
    } else {
        listing(catalog, parameters.drop_last(), widths) + parameter_lines(
            catalog,
            parameters.last(),
            widths,
        )
    }
}

/// The table of parameters.
pub open spec fn listing_text(catalog: CatalogView, parameters: Seq<ParameterView>) -> Seq<char> {
    joined(
        listing(catalog, parameters, cell_widths(all_cells(catalog, parameters))),
        "\n"@,
    ) + "\n"@
}

fn menus_text(catalog: &DeviceCatalog, parameter: &Parameter) -> (r: String)
    ensures
        r@ == menus_cell(catalog@, parameter@),
{
    let text = join_paths(&catalog.menu_paths(parameter), ", ");
    if text.as_str().unicode_len() == 0 {
        "-".to_owned()
    } else {
        text
    }
}

/// The widths of four columns.
struct Widths {
    oid: usize,
    name: usize,
    menu: usize,
    kind: usize,
}

impl Widths {
    spec fn sizes(self) -> Seq<nat> {
        seq![self.oid as nat, self.name as nat, self.menu as nat, self.kind as nat]
    }
}

fn wider(width: usize, text: &str) -> (r: usize)
    ensures
        r == if text@.len() > width {
            text@.len() as int
        } else {
            width as int
        },
{
    let length: usize = length_of(text);
    if length > width {
        length
    } else {
        width
    }
}

fn measure(catalog: &DeviceCatalog, parameters: &[&Parameter], menus: &Vec<String>) -> (r: Widths)
    requires
        menus@.len() == parameters@.len(),
        forall|k: int|
            0 <= k < menus@.len() ==> (#[trigger] menus@[k])@ == menus_cell(
                catalog@,
                parameters@[k]@,
            ),
    ensures
        r.sizes() == cell_widths(all_cells(catalog@, views(parameters@))),
{
    let ghost all = all_cells(catalog@, views(parameters@));
    let mut oid: usize = length_of("OID");
    let mut name: usize = length_of("DISPLAY NAME");
    let mut menu: usize = length_of("MENU");
    let mut kind: usize = length_of("TYPE");
    let mut i: usize = 0;
    while i < parameters.len()
        invariant
            i <= parameters@.len() == menus@.len(),
            all == all_cells(catalog@, views(parameters@)),
            forall|k: int|
                0 <= k < menus@.len() ==> (#[trigger] menus@[k])@ == menus_cell(
                    catalog@,
                    parameters@[k]@,
                ),
            oid == column_width("OID"@, all.take(i as int), 0),
            name == column_width("DISPLAY NAME"@, all.take(i as int), 1),
            menu == column_width("MENU"@, all.take(i as int), 2),
            kind == column_width("TYPE"@, all.take(i as int), 3),
        decreases parameters@.len() - i,
    {
        let parameter = parameters[i];
        proof {
            assert(all.take(i + 1).drop_last() =~= all.take(i as int));
            assert(all.take(i + 1).last() == parameter_cells(catalog@, parameter@));
            assert(menus@[i as int]@ == menus_cell(catalog@, parameters@[i as int]@));
        }
        oid = wider(oid, &parameter.oid.to_string());
        name = wider(name, visible_name(&parameter.display_name));
        menu = wider(menu, &menus[i]);
        kind = wider(kind, &parameter_type_name(&parameter.parameter_type));
        i += 1;
    }
    assert(all.take(i as int) =~= all);
    let r = Widths { oid, name, menu, kind };
    assert(r.sizes() =~= cell_widths(all));
    r
}

fn line_of(first: &str, name: &str, menu: &str, kind: &str, last: &str, widths: &Widths) -> (r:
    String)
    ensures
        r@ == cells_line(seq![first@, name@, menu@, kind@], widths.sizes(), last@),
{
    let mut line = first.to_owned();
    line.append("  ");
    push_padded(&mut line, name, widths.name);
    line.append("  ");
    push_padded(&mut line, menu, widths.menu);
    line.append("  ");
    push_padded(&mut line, kind, widths.kind);
    line.append("  ");
    line.append(last);
    line
}

fn push_parameter(
    lines: &mut Vec<String>,
    catalog: &DeviceCatalog,
    parameter: &Parameter,
    menu: &str,
    widths: &Widths,
)
    requires
        menu@ == menus_cell(catalog@, parameter@),
    ensures
        views(final(lines)@) == views(old(lines)@) + parameter_lines(
            catalog@,
            parameter@,
            widths.sizes(),
        ),
{
    let ghost start = views(lines@);
    let ghost all = parameter_lines(catalog@, parameter@, widths.sizes());
    push_line(
        lines,
        line_of(
            &parameter.oid.to_string(),
            visible_name(&parameter.display_name),
            menu,
            &parameter_type_name(&parameter.parameter_type),
            access_name(parameter.access),
            widths,
        ),
    );
    assert(views(lines@) =~= start + all.take(1));
    if let Some(table) = possible_values_lines(parameter) {
        push_line(lines, "  Possible values:".to_owned());
        assert(views(lines@) =~= start + all.take(2));
        let mut i: usize = 0;
        while i < table.len()
            invariant
                i <= table@.len(),
                value_lines(parameter@) == Some(views(table@)),
                all == parameter_lines(catalog@, parameter@, widths.sizes()),
                views(lines@) =~= start + all.take(i + 2),
            decreases table@.len() - i,
        {
            let line = concat("    ", &table[i]);
            assert(line@ == all[i + 2]);
            push_line(lines, line);
            i += 1;
        }
    }
    assert(views(lines@) =~= start + all);
}

/// The table of parameters.
pub fn parameter_table(catalog: &DeviceCatalog, parameters: &[&Parameter]) -> (r: String)
    ensures
        r@ == listing_text(catalog@, views(parameters@)),
{
    let mut menus: Vec<String> = Vec::new();
    let mut i: usize = 0;
    while i < parameters.len()
        invariant
            i <= parameters@.len(),
            menus@.len() == i,
            forall|k: int|
                0 <= k < i ==> (#[trigger] menus@[k])@ == menus_cell(catalog@, parameters@[k]@),
        decreases parameters@.len() - i,
    {
        menus.push(menus_text(catalog, parameters[i]));
        i += 1;
    }
    let widths = measure(catalog, parameters, &menus);
    let ghost sizes = widths.sizes();
    let ghost all = views(parameters@);
    let mut lines: Vec<String> = Vec::new();
    let mut first = String::new();
    push_padded(&mut first, "OID", widths.oid);
    assert(first@ =~= padded("OID"@, sizes[0]));
    push_line(&mut lines, line_of(&first, "DISPLAY NAME", "MENU", "TYPE", "ACCESS", &widths));
    assert(views(lines@) =~= listing(catalog@, all.take(0), sizes));
    let mut j: usize = 0;
    while j < parameters.len()
        invariant
            j <= parameters@.len() == menus@.len(),
            all == views(parameters@),
            sizes == widths.sizes(),
            forall|k: int|
                0 <= k < menus@.len() ==> (#[trigger] menus@[k])@ == menus_cell(
                    catalog@,
                    parameters@[k]@,
                ),
            views(lines@) == listing(catalog@, all.take(j as int), sizes),
        decreases parameters@.len() - j,
    {
        proof {
            assert(all.take(j + 1).drop_last() =~= all.take(j as int));
            assert(all.take(j + 1).last() == parameters@[j as int]@);
            assert(menus@[j as int]@ == menus_cell(catalog@, parameters@[j as int]@));
        }
        push_parameter(&mut lines, catalog, parameters[j], &menus[j], &widths);
        j += 1;
    }
    assert(all.take(j as int) =~= all);
    concat(&join(&lines, "\n"), "\n")
}

} // verus!
