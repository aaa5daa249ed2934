//! Laws of what is listed of parameters: every value that a parameter can have, and every
//! parameter, in order.

use crate::catalog::{paths_of, CatalogView};
use crate::cli::output::{all_cells, listing, listing_text, parameter_cells, parameter_lines};
use crate::csv_output::{
    access_text, cell_text, constraint_text, current_records, legacy_records, path_texts, raw_text, type_text,
    value_headers, value_lines, value_names_of, value_rows, values_of,
};
use crate::model::{
    oid_text, resolved, Access, ConstraintView, ParameterRole, ParameterView, SetSemantics, ValueView,
};
use crate::table::{column_width, padded};
use crate::text::{decimal, joined, trimmed_end, trimmed_start, white_space};
use vstd::prelude::*;

verus! {

/// The possible values of a parameter with choices are as many texts as there are choices, in
/// their order: each is the label, an equals sign and the value.
pub proof fn law_every_choice_is_a_possible_value(parameter: ParameterView, i: int)
    requires
        resolved(parameter.constraint) is Choice,
        0 <= i < resolved(parameter.constraint)->Choice_choices.len(),
    ensures
        ({
            let choices = resolved(parameter.constraint)->Choice_choices;
            let label = choices[i].display_name;
            let texts = values_of(parameter);
            &&& texts.len() == choices.len()
            &&& texts[i] == label + seq!['='] + raw_text(choices[i].value)
            &&& value_names_of(parameter).len() == choices.len()
            &&& value_names_of(parameter)[i] == label
        }),
{
    reveal_strlit("=");
    assert("="@ =~= seq!['=']);
}

/// The possible values of a parameter with string choices are those choices themselves.
pub proof fn law_every_string_choice_is_a_possible_value(parameter: ParameterView, i: int)
    requires
        resolved(parameter.constraint) is StringChoice,
        0 <= i < resolved(parameter.constraint)->StringChoice_choices.len(),
    ensures
        ({
            let choices = resolved(parameter.constraint)->StringChoice_choices;
            &&& values_of(parameter).len() == choices.len()
            &&& values_of(parameter)[i] == choices[i]
            &&& value_names_of(parameter).len() == choices.len()
            &&& value_names_of(parameter)[i] == choices[i]
        }),
{
}

/// The possible values of a parameter with alarms are as many texts as there are alarms, in their
/// order: each is the name of the alarm, `=bit ` and its bit.
pub proof fn law_every_alarm_is_a_possible_value(parameter: ParameterView, i: int)
    requires
        resolved(parameter.constraint) is AlarmTable,
        0 <= i < resolved(parameter.constraint)->AlarmTable_alarms.len(),
    ensures
        ({
            let alarms = resolved(parameter.constraint)->AlarmTable_alarms;
            let name = alarms[i].name;
            let texts = values_of(parameter);
            &&& texts.len() == alarms.len()
            &&& texts[i] == name + seq!['=', 'b', 'i', 't', ' '] + decimal(alarms[i].bit as nat)
            &&& value_names_of(parameter).len() == alarms.len()
            &&& value_names_of(parameter)[i] == name
        }),
{
    reveal_strlit("=bit ");
    assert("=bit "@ =~= seq!['=', 'b', 'i', 't', ' ']);
}

/// The possible values of a parameter with a range are one text: the minimum, two dots, the
/// maximum, and the step where there is one.
pub proof fn law_range_is_a_possible_value(
    parameter: ParameterView,
    minimum: ValueView,
    maximum: ValueView,
    display_minimum: Option<ValueView>,
    display_maximum: Option<ValueView>,
    step: ValueView,
)
    ensures
        resolved(parameter.constraint) == (ConstraintView::Range {
            minimum,
            maximum,
            display_minimum,
            display_maximum,
            step: None,
        }) ==> values_of(parameter) == seq![raw_text(minimum) + seq!['.', '.'] + raw_text(maximum)]
            && value_names_of(parameter).len() == 0,
        resolved(parameter.constraint) == (ConstraintView::Range {
            minimum,
            maximum,
            display_minimum,
            display_maximum,
            step: Some(step),
        }) ==> values_of(parameter) == seq![
            raw_text(minimum) + seq!['.', '.'] + raw_text(maximum) + seq![
                ' ',
                's',
                't',
                'e',
                'p',
                ' ',
            ] + raw_text(step),
        ] && value_names_of(parameter).len() == 0,
{
    reveal_strlit("..");
    reveal_strlit("");
    reveal_strlit(" step ");
    assert(".."@ =~= seq!['.', '.']);
    assert(" step "@ =~= seq![' ', 's', 't', 'e', 'p', ' ']);
    let start = raw_text(minimum) + seq!['.', '.'] + raw_text(maximum);
    assert(start + ""@ =~= start);
    assert(start + (" step "@ + raw_text(step)) =~= start + " step "@ + raw_text(step));
}

/// Where a constraint does not list values, none are shown.
pub proof fn law_free_parameter_has_no_possible_values(parameter: ParameterView)
    requires
        match resolved(parameter.constraint) {
            ConstraintView::Unconstrained => true,
            ConstraintView::Unsupported { .. } => true,
            ConstraintView::External { .. } => true,
            _ => false,
        },
    ensures
        values_of(parameter).len() == 0,
        value_names_of(parameter).len() == 0,
        value_rows(parameter) is None,
{
}

/// Whatever object holds a constraint, the values are those of the constraint.
pub proof fn law_external_constraint_lists_the_same_values(
    parameter: ParameterView,
    external: ParameterView,
    object_id: u16,
)
    requires
        !(parameter.constraint is External),
        external == (ParameterView {
            constraint: ConstraintView::External {
                object_id,
                resolved: Box::new(parameter.constraint),
            },
            ..parameter
        }),
    ensures
        values_of(external) == values_of(parameter),
        value_names_of(external) == value_names_of(parameter),
        value_rows(external) == value_rows(parameter),
        value_headers(external) == value_headers(parameter),
{
}

/// The list of a catalog has a record for each of its parameters, in their order, behind one
/// header; each record has as many fields as the header, and says of its parameter what it is.
pub proof fn law_every_parameter_has_a_record(catalog: CatalogView, i: int)
    requires
        0 <= i < catalog.parameters.len(),
    ensures
        ({
            let parameter = catalog.parameters[i];
            let records = current_records(catalog);
            let record = records[i + 1];
            &&& records.len() == catalog.parameters.len() + 1
            &&& records[0].len() == 8
            &&& record.len() == 8
            &&& record[0] == oid_text(parameter.oid)
            &&& record[1] == parameter.display_name
            &&& record[2] == joined(path_texts(paths_of(catalog, parameter)), " | "@)
            &&& record[3] == type_text(parameter.parameter_type)
            &&& record[6] == constraint_text(parameter.constraint)
            &&& record[4] == "read_only"@ <==> parameter.access == Access::ReadOnly
            &&& record[4] == "read_write"@ <==> parameter.access == Access::ReadWrite
            &&& record[5] == "layout"@ <==> parameter.role == ParameterRole::Layout
            &&& record[5] == "operational"@ <==> parameter.role == ParameterRole::Operational
            &&& record[7] == joined(values_of(parameter), " | "@)
        }),
{
    reveal_strlit("read_only");
    reveal_strlit("read_write");
    reveal_strlit("layout");
    reveal_strlit("operational");
    assert("read_only"@.len() != "read_write"@.len());
    assert("layout"@.len() != "operational"@.len());
}

/// The older list has, for each parameter that is not layout, a record with its OID and its name
/// and, below it, one for each name of its values; layout is left out.
pub proof fn law_older_list_grows_by_a_parameter(
    parameters: Seq<ParameterView>,
    parameter: ParameterView,
    i: int,
)
    ensures
        ({
            let before = legacy_records(parameters);
            let after = legacy_records(parameters.push(parameter));
            let names = value_names_of(parameter);
            &&& parameter.role == ParameterRole::Layout ==> after == before
            &&& parameter.role == ParameterRole::Operational ==> {
                &&& after.len() == before.len() + 1 + names.len()
                &&& before.is_prefix_of(after)
                &&& after[before.len() as int] == seq![
                    oid_text(parameter.oid),
                    parameter.display_name,
                    seq![],
                ]
                &&& 0 <= i < names.len() ==> after[before.len() + 1 + i] == seq![
                    seq![],
                    seq![],
                    seq![' '] + names[i],
                ]
            }
        }),
        legacy_records(seq![]).len() == 1,
{
    reveal_strlit(" ");
    assert(" "@ =~= seq![' ']);
    assert(parameters.push(parameter).drop_last() =~= parameters);
}

/// Whether a text shows in a cell as it is: it is not empty and has no blanks at an end.
pub open spec fn is_plain(text: Seq<char>) -> bool {
    text.len() > 0 && !white_space(text[0]) && !white_space(text.last())
}

proof fn lemma_plain(text: Seq<char>)
    requires
        is_plain(text),
    ensures
        cell_text(text) == text,
{
    assert(trimmed_start(text) == text);
    assert(trimmed_end(text) == text);
}

/// The table of the values of a parameter with choices has a row for each of them, in order, with
/// its label and its value.
pub proof fn law_every_choice_has_a_row(parameter: ParameterView, i: int)
    requires
        parameter.set_semantics == SetSemantics::Value,
        resolved(parameter.constraint) is Choice,
        0 <= i < resolved(parameter.constraint)->Choice_choices.len(),
        is_plain(resolved(parameter.constraint)->Choice_choices[i].display_name),
    ensures
        ({
            let choices = resolved(parameter.constraint)->Choice_choices;
            &&& value_rows(parameter) matches Some(rows) && rows.len() == choices.len() && rows[i]
                == seq![choices[i].display_name, raw_text(choices[i].value)]
            &&& value_headers(parameter) == seq!["VALUE"@, "RAW VALUE"@]
        }),
{
    lemma_plain(resolved(parameter.constraint)->Choice_choices[i].display_name);
}

/// The table of the values of a button with one or two choices has one row: the first label, and
/// the value of the last choice, which sets off the action.
pub proof fn law_button_has_one_row(parameter: ParameterView)
    requires
        parameter.set_semantics == SetSemantics::Trigger,
        resolved(parameter.constraint) is Choice,
        1 <= resolved(parameter.constraint)->Choice_choices.len() <= 2,
        is_plain(resolved(parameter.constraint)->Choice_choices[0].display_name),
    ensures
        ({
            let choices = resolved(parameter.constraint)->Choice_choices;
            &&& value_rows(parameter) == Some(
                seq![
                    seq![
                        choices[0].display_name,
                        raw_text(choices[choices.len() - 1].value),
                    ],
                ],
            )
            &&& value_headers(parameter) == seq!["BUTTON"@, "ACTION RAW VALUE"@]
        }),
{
    lemma_plain(resolved(parameter.constraint)->Choice_choices[0].display_name);
}

/// The table of the values of a parameter with string choices has a row for each of them.
pub proof fn law_every_string_choice_has_a_row(parameter: ParameterView, i: int)
    requires
        resolved(parameter.constraint) is StringChoice,
        0 <= i < resolved(parameter.constraint)->StringChoice_choices.len(),
        is_plain(resolved(parameter.constraint)->StringChoice_choices[i]),
    ensures
        ({
            let choices = resolved(parameter.constraint)->StringChoice_choices;
            &&& value_rows(parameter) matches Some(rows) && rows.len() == choices.len() && rows[i]
                == seq![choices[i]]
            &&& value_headers(parameter) == seq!["VALUE"@]
        }),
{
    lemma_plain(resolved(parameter.constraint)->StringChoice_choices[i]);
}

/// The table of the values of a parameter with alarms has a row for each of them, with its name and
/// its bit.
pub proof fn law_every_alarm_has_a_row(parameter: ParameterView, i: int)
    requires
        resolved(parameter.constraint) is AlarmTable,
        0 <= i < resolved(parameter.constraint)->AlarmTable_alarms.len(),
        is_plain(resolved(parameter.constraint)->AlarmTable_alarms[i].name),
    ensures
        ({
            let alarms = resolved(parameter.constraint)->AlarmTable_alarms;
            &&& value_rows(parameter) matches Some(rows) && rows.len() == alarms.len() && rows[i]
                == seq![alarms[i].name, decimal(alarms[i].bit as nat)]
            &&& value_headers(parameter) == seq!["VALUE"@, "BIT"@]
        }),
{
    lemma_plain(resolved(parameter.constraint)->AlarmTable_alarms[i].name);
}

/// The table of the values of a parameter with a range has one row: its ends and its step.
pub proof fn law_range_has_one_row(parameter: ParameterView)
    requires
        resolved(parameter.constraint) is Range,
    ensures
        resolved(parameter.constraint) matches ConstraintView::Range { minimum, maximum, step, .. }
            && value_rows(parameter) == Some(
            seq![
                seq![
                    raw_text(minimum),
                    raw_text(maximum),
                    if step is Some {
                        raw_text(step->0)
                    } else {
                        Seq::<char>::empty()
                    },
                ],
            ],
        ),
        value_headers(parameter) == seq!["MINIMUM"@, "MAXIMUM"@, "STEP"@],
{
    if let ConstraintView::Range { minimum, maximum, step, .. } = resolved(parameter.constraint) {
        let last = if step is Some {
            raw_text(step->0)
        } else {
            Seq::<char>::empty()
        };
        let row = seq![raw_text(minimum), raw_text(maximum), last];
        assert(value_rows(parameter)->0[0] =~= row);
        assert(value_rows(parameter)->0 =~= seq![row]);
    }
}

/// The table of parameters has a header and then, for each parameter in order, a line with its OID,
/// its name, its menus, its type and its access; below it stand the lines of the table of its
/// values, where it has one.
pub proof fn law_table_grows_by_a_parameter(
    catalog: CatalogView,
    parameters: Seq<ParameterView>,
    parameter: ParameterView,
    widths: Seq<nat>,
    i: int,
)
    ensures
        ({
            let before = listing(catalog, parameters, widths);
            let after = listing(catalog, parameters.push(parameter), widths);
            let count = match value_lines(parameter) {
                Some(lines) => 2 + lines.len(),
                None => 1,
            };
            let line = after[before.len() as int];
            let oid = oid_text(parameter.oid);
            let access = access_text(parameter.access);
            let cells = parameter_cells(catalog, parameter);
            let blanks = seq![' ', ' '];
            &&& after.len() == before.len() + count
            &&& before.is_prefix_of(after)
            &&& line == oid + blanks + padded(cells[1], widths[1]) + blanks + padded(
                cells[2],
                widths[2],
            ) + blanks + padded(cells[3], widths[3]) + blanks + access
            &&& value_lines(parameter) matches Some(lines) ==> (0 <= i < lines.len()
                ==> after[before.len() + 2 + i] == seq![' ', ' ', ' ', ' '] + lines[i])
        }),
        listing(catalog, seq![], widths).len() == 1,
{
    reveal_strlit("  ");
    assert("  "@ =~= seq![' ', ' ']);
    reveal_strlit("    ");
    assert("    "@ =~= seq![' ', ' ', ' ', ' ']);
    assert(parameters.push(parameter).drop_last() =~= parameters);
    let before = listing(catalog, parameters, widths);
    let after = listing(catalog, parameters.push(parameter), widths);
    let line = after[before.len() as int];
    assert(line == parameter_lines(catalog, parameter, widths)[0]);
    assert(before.is_prefix_of(after));
}

/// The cells of a parameter say which it is: its OID, its name, the menus that show it, or a dash
/// where none does, and its type.
pub proof fn law_cells_of_a_parameter(catalog: CatalogView, parameter: ParameterView)
    requires
        parameter.display_name.len() > 0,
    ensures
        ({
            let cells = parameter_cells(catalog, parameter);
            let menus = joined(path_texts(paths_of(catalog, parameter)), ", "@);
            &&& cells.len() == 4
            &&& cells[0] == oid_text(parameter.oid)
            &&& cells[1] == parameter.display_name
            &&& menus.len() > 0 ==> cells[2] == menus
            &&& menus.len() == 0 ==> cells[2] == seq!['-']
            &&& cells[3] == type_text(parameter.parameter_type)
        }),
{
    reveal_strlit("-");
    assert("-"@ =~= seq!['-']);
}

/// The table of parameters is its lines, each with a line feed. Its columns are as wide as their
/// headers and the widest cells below them.
pub proof fn law_table_of_parameters(catalog: CatalogView, parameters: Seq<ParameterView>)
    ensures
        ({
            let rows = Seq::new(
                parameters.len(),
                |i: int| parameter_cells(catalog, parameters[i]),
            );
            let widths = seq![
                column_width("OID"@, rows, 0),
                column_width("DISPLAY NAME"@, rows, 1),
                column_width("MENU"@, rows, 2),
                column_width("TYPE"@, rows, 3),
            ];
            listing_text(catalog, parameters) == joined(
                listing(catalog, parameters, widths),
                seq!['\n'],
            ) + seq!['\n']
        }),
{
    reveal_strlit("\n");
    assert("\n"@ =~= seq!['\n']);
    let rows = Seq::new(parameters.len(), |i: int| parameter_cells(catalog, parameters[i]));
    assert(all_cells(catalog, parameters) =~= rows);
}

} // verus!
