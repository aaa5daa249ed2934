//! Parameters as rows of comma-separated values, and what their values can be.

use crate::catalog::{
    paths_of, CatalogView, DeviceCatalog, MenuPath, MenuPathView,
};
use crate::decimal::{float_text, text_of_float};
use crate::model::{
    oid_text, resolved, Access, AlarmView, Choice, ChoiceView, Constraint, ConstraintView,
    Parameter, ParameterRole, ParameterType, ParameterValue, ParameterView, SetSemantics, ValueView,
};
use crate::table::{draw, row_views, table_lines};
use crate::text::{
    concat, debug_text, decimal, decimal_text, join, joined, quoted, same, signed_decimal,
    signed_decimal_text, trim, trimmed,
};
use crate::views::{clone_all, option_view, views};
use vstd::prelude::*;
use vstd::string::*;
use vstd::utf8::*;

verus! {

/// A `csv::Writer` on a vector: it turns records into comma-separated values and appends them.
#[verifier::external_body]
pub struct RecordWriter {
    writer: csv::Writer<Vec<u8>>,
}

/// What a writer has written.
pub uninterp spec fn csv_text(writer: RecordWriter) -> Seq<u8>;

/// How many fields each record of a writer has, once it has written one.
pub uninterp spec fn csv_columns(writer: RecordWriter) -> Option<nat>;

/// Whether a field needs quotes: it holds a comma, a quote or a line break.
pub open spec fn needs_quotes(field: Seq<u8>) -> bool {
    field.contains(0x2C) || field.contains(0x22) || field.contains(0x0D) || field.contains(0x0A)
}

/// A field with each quote doubled.
pub open spec fn doubled(field: Seq<u8>) -> Seq<u8>
    decreases field.len(),
{
    if field.len() == 0 {
        seq![]
    } else if field.last() == 0x22 {
        doubled(field.drop_last()) + seq![0x22u8, 0x22u8]
    } else {
        doubled(field.drop_last()).push(field.last())
    }
}

/// A field as it is written: in quotes where it needs them.
pub open spec fn csv_field(field: Seq<u8>) -> Seq<u8> {
    if needs_quotes(field) {
        seq![0x22u8] + doubled(field) + seq![0x22u8]
    } else {
        field
    }
}

/// Fields with commas between them.
pub open spec fn csv_fields(fields: Seq<Seq<char>>) -> Seq<u8>
    decreases fields.len(),
{
    if fields.len() == 0 {
        seq![]
    } else if fields.len() == 1 {
        csv_field(encode_utf8(fields[0]))
    } else {
        csv_fields(fields.drop_last()) + seq![0x2Cu8] + csv_field(encode_utf8(fields.last()))
    }
}

/// A record of two fields or more: its fields and a line feed.
pub open spec fn csv_record(fields: Seq<Seq<char>>) -> Seq<u8> {
    csv_fields(fields).push(0x0A)
}

/// Records one behind the other.
pub open spec fn csv_records(records: Seq<Seq<Seq<char>>>) -> Seq<u8>
    decreases records.len(),
{
    if records.len() == 0 {
        seq![]
    } else {
        csv_records(records.drop_last()) + csv_record(records.last())
    }
}

/// `csv::WriterBuilder` with the terminator `\n`, and `from_writer` on an empty vector: a writer
/// that has written nothing.
#[verifier::external_body]
fn csv_writer() -> (writer: RecordWriter)
    ensures
        csv_text(writer) == Seq::<u8>::empty(),
        csv_columns(writer) is None,
{
    RecordWriter {
        writer: csv::WriterBuilder::new()
            .terminator(csv::Terminator::Any(b'\n'))
            .from_writer(Vec::new()),
    }
}

/// `csv::Writer::write_record`: it appends the record, which has as many fields as those before it.
/// Writing to a vector does not fail. Records of one field, which are quoted otherwise where the
/// field is empty, are left out, and so are records of another length, which are refused.
#[verifier::external_body]
fn write_record(writer: &mut RecordWriter, fields: &Vec<String>) -> (r: Result<(), String>)
    requires
        fields@.len() >= 2,
        csv_columns(*old(writer)) matches Some(columns) ==> columns == fields@.len(),
    ensures
        r is Ok,
        csv_text(*final(writer)) == csv_text(*old(writer)) + csv_record(views(fields@)),
        csv_columns(*final(writer)) == Some(fields@.len()),
{
    writer.writer.write_record(fields).map_err(|error| error.to_string())
}

/// `csv::Writer::into_inner`: the vector that was written to, with all that was written. Writing
/// to a vector does not fail.
#[verifier::external_body]
fn into_inner(writer: RecordWriter) -> (r: Result<Vec<u8>, String>)
    ensures
        r is Ok,
        r->Ok_0@ == csv_text(writer),
{
    writer.writer.into_inner().map_err(|error| error.error().to_string())
}

/// What went wrong while values were written.
#[derive(Debug)]
pub enum CsvOutputError {
    Csv(String),
    Finalize(String),
}

impl CsvOutputError {
    /// What is said of the error.
    pub fn to_string(&self) -> (r: String)
        ensures
            r@ == (match *self {
                CsvOutputError::Csv(text) => text@,
                CsvOutputError::Finalize(text) => "failed to finalize CSV: "@ + text@,
            }),
    {
        match self {
            Self::Csv(text) => text.clone(),
            Self::Finalize(text) => concat("failed to finalize CSV: ", text),
        }
    }
}

/// Writes records, all of one number of fields.
fn write_records(records: &Vec<Vec<String>>, columns: usize) -> (r: Result<Vec<u8>, CsvOutputError>)
    requires
        columns >= 2,
        forall|i: int| 0 <= i < records@.len() ==> (#[trigger] records@[i])@.len() == columns,
    ensures
        r matches Ok(bytes) && bytes@ == csv_records(row_views(records@)),
{
    let mut writer = csv_writer();
    let mut i: usize = 0;
    let ghost all = row_views(records@);
    assert(all.take(0) =~= seq![]);
    while i < records.len()
        invariant
            i <= records@.len(),
            columns >= 2,
            all == row_views(records@),
            forall|k: int| 0 <= k < records@.len() ==> (#[trigger] records@[k])@.len() == columns,
            csv_text(writer) == csv_records(all.take(i as int)),
            csv_columns(writer) matches Some(count) ==> count == columns,
        decreases records@.len() - i,
    {
        assert(all.take(i + 1).drop_last() =~= all.take(i as int));
        assert(all.take(i + 1).last() == views(records@[i as int]@));
        assert(records@[i as int]@.len() == columns);
        if let Err(error) = write_record(&mut writer, &records[i]) {
            return Err(CsvOutputError::Csv(error));
        }
        i += 1;
    }
    assert(all.take(i as int) =~= all);
    match into_inner(writer) {
        Ok(bytes) => Ok(bytes),
        Err(error) => Err(CsvOutputError::Finalize(error)),
    }
}

/// A value as it is stored: integers in decimal, floats as their text.
pub open spec fn raw_text(value: ValueView) -> Seq<char> {
    match value {
        ValueView::Int16 { value } => signed_decimal(value as int),
        ValueView::Int32 { value } => signed_decimal(value as int),
        ValueView::Float32 { value } => float_text(value.bits),
        ValueView::String { value } => value,
    }
}

/// A value as it is stored.
pub fn raw_value(value: &ParameterValue) -> (r: String)
    ensures
        r@ == raw_text(value@),
{
    match value {
        ParameterValue::Int16 { value } => signed_decimal_text(*value as i32),
        ParameterValue::Int32 { value } => signed_decimal_text(*value),
        ParameterValue::Float32 { value } => text_of_float(value.bits),
        ParameterValue::String { value } => value.clone(),
    }
}

/// The name of a type.
pub open spec fn type_text(value: ParameterType) -> Seq<char> {
    match value {
        ParameterType::Int16 => "int16"@,
        ParameterType::Int32 => "int32"@,
        ParameterType::Float32 => "float32"@,
        ParameterType::String { .. } => "string"@,
        ParameterType::Int16Array { .. } => "int16_array"@,
        ParameterType::Int32Array { .. } => "int32_array"@,
        ParameterType::Float32Array { .. } => "float32_array"@,
        ParameterType::StringArray { .. } => "string_array"@,
        ParameterType::Binary => "binary"@,
        ParameterType::Unsupported { type_id } => "type_"@ + decimal(type_id as nat),
    }
}

/// The name of a type.
pub fn parameter_type_name(value: &ParameterType) -> (r: String)
    ensures
        r@ == type_text(*value),
{
    match value {
        ParameterType::Int16 => "int16".to_owned(),
        ParameterType::Int32 => "int32".to_owned(),
        ParameterType::Float32 => "float32".to_owned(),
        ParameterType::String { .. } => "string".to_owned(),
        ParameterType::Int16Array { .. } => "int16_array".to_owned(),
        ParameterType::Int32Array { .. } => "int32_array".to_owned(),
        ParameterType::Float32Array { .. } => "float32_array".to_owned(),
        ParameterType::StringArray { .. } => "string_array".to_owned(),
        ParameterType::Binary => "binary".to_owned(),
        ParameterType::Unsupported { type_id } => concat("type_", &decimal_text(*type_id as u64)),
    }
}

/// The name of an access.
pub open spec fn access_text(value: Access) -> Seq<char> {
    match value {
        Access::ReadOnly => "read_only"@,
        Access::ReadWrite => "read_write"@,
    }
}

/// The name of an access.
pub fn access_name(value: Access) -> (r: &'static str)
    ensures
        r@ == access_text(value),
{
    match value {
        Access::ReadOnly => "read_only",
        Access::ReadWrite => "read_write",
    }
}

/// The name of a role.
pub open spec fn role_text(value: ParameterRole) -> Seq<char> {
    match value {
        ParameterRole::Operational => "operational"@,
        ParameterRole::Layout => "layout"@,
    }
}

fn role_name(value: ParameterRole) -> (r: &'static str)
    ensures
        r@ == role_text(value),
{
    match value {
        ParameterRole::Operational => "operational",
        ParameterRole::Layout => "layout",
    }
}

/// The name of a kind of constraint.
pub open spec fn constraint_text(value: ConstraintView) -> Seq<char> {
    match value {
        ConstraintView::Unconstrained => "unconstrained"@,
        ConstraintView::Choice { .. } => "choice"@,
        ConstraintView::StringChoice { .. } => "string_choice"@,
        ConstraintView::Range { .. } => "range"@,
        ConstraintView::AlarmTable { .. } => "alarm_table"@,
        ConstraintView::External { .. } => "external_resolved"@,
        ConstraintView::Unsupported { .. } => "unsupported"@,
    }
}

fn constraint_name(value: &Constraint) -> (r: &'static str)
    ensures
        r@ == constraint_text(value@),
{
    match value {
        Constraint::Unconstrained => "unconstrained",
        Constraint::Choice { .. } => "choice",
        Constraint::StringChoice { .. } => "string_choice",
        Constraint::Range { .. } => "range",
        Constraint::AlarmTable { .. } => "alarm_table",
        Constraint::External { .. } => "external_resolved",
        Constraint::Unsupported { .. } => "unsupported",
    }
}

/// The name of a menu, with its group in brackets where the group is needed.
pub open spec fn path_text(path: MenuPathView) -> Seq<char> {
    if path.group_required {
        path.menu + " ("@ + path.group + ")"@
    } else {
        path.menu
    }
}

/// The name of a menu, with its group in brackets where the group is needed.
pub fn menu_path_name(path: &MenuPath) -> (r: String)
    ensures
        r@ == path_text(path@),
{
    if path.group_required {
        concat(&concat(&concat(&path.menu, " ("), &path.group), ")")
    } else {
        path.menu.clone()
    }
}

/// The names of menus.
pub open spec fn path_texts(paths: Seq<MenuPathView>) -> Seq<Seq<char>> {
    paths.map_values(|path: MenuPathView| path_text(path))
}

/// The names of menus, with a separator between them.
pub fn join_paths(paths: &Vec<MenuPath>, separator: &str) -> (r: String)
    ensures
        r@ == joined(path_texts(views(paths@)), separator@),
{
    let mut names: Vec<String> = Vec::new();
    let mut i: usize = 0;
    let ghost all = path_texts(views(paths@));
    while i < paths.len()
        invariant
            i <= paths@.len(),
            all == path_texts(views(paths@)),
            views(names@) =~= all.take(i as int),
        decreases paths@.len() - i,
    {
        let name = menu_path_name(&paths[i]);
        assert(name@ == all[i as int]);
        let ghost before = names@;
        let ghost view = name@;
        names.push(name);
        assert(views(names@) =~= views(before).push(view));
        i += 1;
    }
    assert(views(names@) =~= all);
    join(&names, separator)
}

/// A range, with its step where it has one.
pub open spec fn range_text(
    minimum: ValueView,
    maximum: ValueView,
    step: Option<ValueView>,
) -> Seq<char> {
    raw_text(minimum) + ".."@ + raw_text(maximum) + match step {
        Some(step) => " step "@ + raw_text(step),
        None => ""@,
    }
}

pub open spec fn choice_text(choice: ChoiceView) -> Seq<char> {
    choice.display_name + "="@ + raw_text(choice.value)
}

pub open spec fn alarm_text(alarm: AlarmView) -> Seq<char> {
    alarm.name + "=bit "@ + decimal(alarm.bit as nat)
}

/// The values that a parameter can have, each in words.
pub open spec fn values_of(parameter: ParameterView) -> Seq<Seq<char>> {
    match resolved(parameter.constraint) {
        ConstraintView::Choice { choices } => choices.map_values(
            |choice: ChoiceView| choice_text(choice),
        ),
        ConstraintView::StringChoice { choices, .. } => choices,
        ConstraintView::AlarmTable { alarms } => alarms.map_values(
            |alarm: AlarmView| alarm_text(alarm),
        ),
        ConstraintView::Range { minimum, maximum, step, .. } => seq![
            range_text(minimum, maximum, step),
        ],
        _ => seq![],
    }
}

/// The values that a parameter can have, each in words.
pub fn possible_values(parameter: &Parameter) -> (r: Vec<String>)
    ensures
        views(r@) == values_of(parameter@),
{
    let ghost all = values_of(parameter@);
    let mut r: Vec<String> = Vec::new();
    match parameter.resolved_constraint() {
        Constraint::Choice { choices } => {
            let mut i: usize = 0;
            assert(all.len() == choices@.len());
            while i < choices.len()
                invariant
                    i <= choices@.len() == all.len(),
                    all == views(choices@).map_values(|choice: ChoiceView| choice_text(choice)),
                    views(r@) =~= all.take(i as int),
                decreases choices@.len() - i,
            {
                let text = concat(
                    &concat(&choices[i].display_name, "="),
                    &raw_value(&choices[i].value),
                );
                assert(text@ == all[i as int]);
                let ghost before = r@;
                let ghost view = text@;
                r.push(text);
                assert(views(r@) =~= views(before).push(view));
                i += 1;
            }
            assert(views(r@) =~= all);
            r
        },
        Constraint::StringChoice { choices, .. } => clone_all(choices),
        Constraint::AlarmTable { alarms } => {
            let mut i: usize = 0;
            assert(all.len() == alarms@.len());
            while i < alarms.len()
                invariant
                    i <= alarms@.len() == all.len(),
                    all == views(alarms@).map_values(|alarm: AlarmView| alarm_text(alarm)),
                    views(r@) =~= all.take(i as int),
                decreases alarms@.len() - i,
            {
                let text = concat(
                    &concat(&alarms[i].name, "=bit "),
                    &decimal_text(alarms[i].bit as u64),
                );
                assert(text@ == all[i as int]);
                let ghost before = r@;
                let ghost view = text@;
                r.push(text);
                assert(views(r@) =~= views(before).push(view));
                i += 1;
            }
            assert(views(r@) =~= all);
            r
        },
        Constraint::Range { minimum, maximum, step, .. } => {
            let start = concat(&concat(&raw_value(minimum), ".."), &raw_value(maximum));
            let text = match step {
                Some(step) => concat(&start, &concat(" step ", &raw_value(step))),
                None => concat(&start, ""),
            };
            r.push(text);
            assert(views(r@) =~= all);
            r
        },
        _ => {
            assert(views(r@) =~= all);
            r
        },
    }
}

/// The names of the values that a parameter can have.
pub open spec fn value_names_of(parameter: ParameterView) -> Seq<Seq<char>> {
    match resolved(parameter.constraint) {
        ConstraintView::Choice { choices } => choices.map_values(
            |choice: ChoiceView| choice.display_name,
        ),
        ConstraintView::StringChoice { choices, .. } => choices,
        ConstraintView::AlarmTable { alarms } => alarms.map_values(|alarm: AlarmView| alarm.name),
        _ => seq![],
    }
}

fn legacy_value_names(parameter: &Parameter) -> (r: Vec<String>)
    ensures
        views(r@) == value_names_of(parameter@),
{
    let ghost all = value_names_of(parameter@);
    let mut r: Vec<String> = Vec::new();
    match parameter.resolved_constraint() {
        Constraint::Choice { choices } => {
            let mut i: usize = 0;
            assert(all.len() == choices@.len());
            while i < choices.len()
                invariant
                    i <= choices@.len() == all.len(),
                    all == views(choices@).map_values(|choice: ChoiceView| choice.display_name),
                    views(r@) =~= all.take(i as int),
                decreases choices@.len() - i,
            {
                let text = choices[i].display_name.clone();
                assert(text@ == all[i as int]);
                let ghost before = r@;
                r.push(text);
                assert(views(r@) =~= views(before).push(text@));
                i += 1;
            }
            assert(views(r@) =~= all);
            r
        },
        Constraint::StringChoice { choices, .. } => clone_all(choices),
        Constraint::AlarmTable { alarms } => {
            let mut i: usize = 0;
            assert(all.len() == alarms@.len());
            while i < alarms.len()
                invariant
                    i <= alarms@.len() == all.len(),
                    all == views(alarms@).map_values(|alarm: AlarmView| alarm.name),
                    views(r@) =~= all.take(i as int),
                decreases alarms@.len() - i,
            {
                let text = alarms[i].name.clone();
                assert(text@ == all[i as int]);
                let ghost before = r@;
                r.push(text);
                assert(views(r@) =~= views(before).push(text@));
                i += 1;
            }
            assert(views(r@) =~= all);
            r
        },
        _ => {
            assert(views(r@) =~= all);
            r
        },
    }
}

/// A text that shows in a table cell: one that is empty or has blanks at an end is marked.
pub open spec fn cell_text(value: Seq<char>) -> Seq<char> {
    if value.len() == 0 {
        "<empty>"@
    } else if trimmed(value) != value {
        debug_text(value)
    } else {
        value
    }
}

fn visible_cell(value: &str) -> (r: String)
    ensures
        r@ == cell_text(value@),
{
    if value.unicode_len() == 0 {
        "<empty>".to_owned()
    } else if !same(&trim(value), value) {
        quoted(value)
    } else {
        value.to_owned()
    }
}

/// The headers of the table of values.
pub open spec fn value_headers(parameter: ParameterView) -> Seq<Seq<char>> {
    match resolved(parameter.constraint) {
        ConstraintView::Choice { choices } => if is_button(parameter) {
            seq!["BUTTON"@, "ACTION RAW VALUE"@]
        } else {
            seq!["VALUE"@, "RAW VALUE"@]
        },
        ConstraintView::StringChoice { .. } => seq!["VALUE"@],
        ConstraintView::AlarmTable { .. } => seq!["VALUE"@, "BIT"@],
        _ => seq!["MINIMUM"@, "MAXIMUM"@, "STEP"@],
    }
}

/// Whether a parameter is a button: writing it sets off the action of its one or two choices.
pub open spec fn is_button(parameter: ParameterView) -> bool {
    &&& parameter.set_semantics == SetSemantics::Trigger
    &&& resolved(parameter.constraint) matches ConstraintView::Choice { choices } && (choices.len()
        == 1 || choices.len() == 2)
}

/// The row of a choice: its label and its value.
pub open spec fn choice_row(choice: ChoiceView) -> Seq<Seq<char>> {
    seq![cell_text(choice.display_name), raw_text(choice.value)]
}

/// The row of an alarm: its name and its bit.
pub open spec fn alarm_row(alarm: AlarmView) -> Seq<Seq<char>> {
    seq![cell_text(alarm.name), decimal(alarm.bit as nat)]
}

/// The rows of the table of values. A button has one row: the first label and the last value.
pub open spec fn value_rows(parameter: ParameterView) -> Option<Seq<Seq<Seq<char>>>> {
    match resolved(parameter.constraint) {
        ConstraintView::Choice { choices } => Some(
            if is_button(parameter) {
                seq![seq![cell_text(choices[0].display_name), raw_text(choices.last().value)]]
            } else {
                choices.map_values(|choice: ChoiceView| choice_row(choice))
            },
        ),
        ConstraintView::StringChoice { choices, .. } => Some(
            choices.map_values(|choice: Seq<char>| seq![cell_text(choice)]),
        ),
        ConstraintView::AlarmTable { alarms } => Some(
            alarms.map_values(|alarm: AlarmView| alarm_row(alarm)),
        ),
        ConstraintView::Range { minimum, maximum, step, .. } => Some(
            seq![
                seq![
                    raw_text(minimum),
                    raw_text(maximum),
                    match step {
                        Some(step) => raw_text(step),
                        None => seq![],
                    },
                ],
            ],
        ),
        _ => None,
    }
}

/// The lines of the table of values.
pub open spec fn value_lines(parameter: ParameterView) -> Option<Seq<Seq<char>>> {
    match value_rows(parameter) {
        Some(rows) => Some(table_lines(value_headers(parameter), rows)),
        None => None,
    }
}

fn headers2(first: &str, second: &str) -> (r: Vec<String>)
    ensures
        views(r@) == seq![first@, second@],
{
    let mut r: Vec<String> = Vec::new();
    r.push(first.to_owned());
    r.push(second.to_owned());
    assert(views(r@) =~= seq![first@, second@]);
    r
}

fn row2(first: String, second: String) -> (r: Vec<String>)
    ensures
        views(r@) == seq![first@, second@],
        r@.len() == 2,
{
    let mut r: Vec<String> = Vec::new();
    r.push(first);
    r.push(second);
    assert(views(r@) =~= seq![first@, second@]);
    r
}

/// The lines of the table of values, where the values of a parameter can be listed.
pub fn possible_values_lines(parameter: &Parameter) -> (r: Option<Vec<String>>)
    ensures
        match r {
            Some(lines) => value_lines(parameter@) == Some(views(lines@)),
            None => value_lines(parameter@) is None,
        },
{
    let ghost all = value_rows(parameter@);
    let mut rows: Vec<Vec<String>> = Vec::new();
    match parameter.resolved_constraint() {
        Constraint::Choice { choices } => {
            if parameter.set_semantics == SetSemantics::Trigger && (choices.len() == 1
                || choices.len() == 2) {
                rows.push(
                    row2(
                        visible_cell(&choices[0].display_name),
                        raw_value(&choices[choices.len() - 1].value),
                    ),
                );
                assert(row_views(rows@) =~= all->0);
                return Some(draw(&headers2("BUTTON", "ACTION RAW VALUE"), &rows));
            }
            assert(!is_button(parameter@));
            let ghost list = views(choices@).map_values(|choice: ChoiceView| choice_row(choice));
            let mut i: usize = 0;
            while i < choices.len()
                invariant
                    i <= choices@.len(),
                    list == views(choices@).map_values(|choice: ChoiceView| choice_row(choice)),
                    forall|k: int| 0 <= k < i ==> (#[trigger] rows@[k])@.len() == 2,
                    row_views(rows@) =~= list.take(i as int),
                decreases choices@.len() - i,
            {
                let row = row2(
                    visible_cell(&choices[i].display_name),
                    raw_value(&choices[i].value),
                );
                assert(views(row@) == list[i as int]);
                let ghost before = rows@;
                let ghost view = views(row@);
                rows.push(row);
                assert(row_views(rows@) =~= row_views(before).push(view));
                i += 1;
            }
            assert(row_views(rows@) =~= list);
            Some(draw(&headers2("VALUE", "RAW VALUE"), &rows))
        },
        Constraint::StringChoice { choices, .. } => {
            let ghost list = views(choices@).map_values(
                |choice: Seq<char>| seq![cell_text(choice)],
            );
            let mut i: usize = 0;
            while i < choices.len()
                invariant
                    i <= choices@.len(),
                    list == views(choices@).map_values(
                        |choice: Seq<char>| seq![cell_text(choice)],
                    ),
                    forall|k: int| 0 <= k < i ==> (#[trigger] rows@[k])@.len() == 1,
                    row_views(rows@) =~= list.take(i as int),
                decreases choices@.len() - i,
            {
                let mut row: Vec<String> = Vec::new();
                row.push(visible_cell(&choices[i]));
                assert(views(row@) =~= list[i as int]);
                let ghost before = rows@;
                let ghost view = views(row@);
                rows.push(row);
                assert(row_views(rows@) =~= row_views(before).push(view));
                i += 1;
            }
            assert(row_views(rows@) =~= list);
            let mut headers: Vec<String> = Vec::new();
            headers.push("VALUE".to_owned());
            assert(views(headers@) =~= seq!["VALUE"@]);
            Some(draw(&headers, &rows))
        },
        Constraint::AlarmTable { alarms } => {
            let ghost list = views(alarms@).map_values(|alarm: AlarmView| alarm_row(alarm));
            let mut i: usize = 0;
            while i < alarms.len()
                invariant
                    i <= alarms@.len(),
                    list == views(alarms@).map_values(|alarm: AlarmView| alarm_row(alarm)),
                    forall|k: int| 0 <= k < i ==> (#[trigger] rows@[k])@.len() == 2,
                    row_views(rows@) =~= list.take(i as int),
                decreases alarms@.len() - i,
            {
                let row = row2(
                    visible_cell(&alarms[i].name),
                    decimal_text(alarms[i].bit as u64),
                );
                assert(views(row@) == list[i as int]);
                let ghost before = rows@;
                let ghost view = views(row@);
                rows.push(row);
                assert(row_views(rows@) =~= row_views(before).push(view));
                i += 1;
            }
            assert(row_views(rows@) =~= list);
            Some(draw(&headers2("VALUE", "BIT"), &rows))
        },
        Constraint::Range { minimum, maximum, step, .. } => {
            let mut row = row2(raw_value(minimum), raw_value(maximum));
            let ghost start = views(row@);
            let last = match step {
                Some(step) => raw_value(step),
                None => String::new(),
            };
            let ghost view = last@;
            row.push(last);
            rows.push(row);
            proof {
                assert(step is None ==> view =~= seq![]);
                assert(views(rows@[0]@) =~= start.push(view));
                assert(start.push(view) =~= all->0[0]);
                assert(row_views(rows@) =~= all->0);
            }
            let mut headers = headers2("MINIMUM", "MAXIMUM");
            let ghost before = headers@;
            headers.push("STEP".to_owned());
            assert(views(headers@) =~= views(before).push("STEP"@));
            assert(views(headers@) =~= seq!["MINIMUM"@, "MAXIMUM"@, "STEP"@]);
            Some(draw(&headers, &rows))
        },
        _ => None,
    }
}

/// The table of values.
pub open spec fn value_table(parameter: ParameterView) -> Option<Seq<char>> {
    match value_lines(parameter) {
        Some(lines) => Some(joined(lines, "\n"@)),
        None => None,
    }
}

/// The table of the values that a parameter can have, where they can be listed.
pub fn possible_values_table(parameter: &Parameter) -> (r: Option<String>)
    ensures
        option_view(r) == value_table(parameter@),
{
    match possible_values_lines(parameter) {
        Some(lines) => Some(join(&lines, "\n")),
        None => None,
    }
}

/// The fields of a parameter.
pub open spec fn current_record(catalog: CatalogView, parameter: ParameterView) -> Seq<Seq<char>> {
    seq![
        oid_text(parameter.oid),
        parameter.display_name,
        joined(path_texts(paths_of(catalog, parameter)), " | "@),
        type_text(parameter.parameter_type),
        access_text(parameter.access),
        role_text(parameter.role),
        constraint_text(parameter.constraint),
        joined(values_of(parameter), " | "@),
    ]
}

pub open spec fn current_header() -> Seq<Seq<char>> {
    seq![
        "OID"@,
        "Display Name"@,
        "Menu"@,
        "Type"@,
        "Access"@,
        "Role"@,
        "Constraint"@,
        "Possible Values"@,
    ]
}

/// The header and a record for each parameter.
pub open spec fn current_records(catalog: CatalogView) -> Seq<Seq<Seq<char>>> {
    seq![current_header()] + catalog.parameters.map_values(
        |parameter: ParameterView| current_record(catalog, parameter),
    )
}

/// The parameters of a catalog as comma-separated values.
pub fn current(catalog: &DeviceCatalog) -> (r: Result<Vec<u8>, CsvOutputError>)
    ensures
        r matches Ok(bytes) && bytes@ == csv_records(current_records(catalog@)),
{
    let mut header: Vec<String> = Vec::new();
    header.push("OID".to_owned());
    header.push("Display Name".to_owned());
    header.push("Menu".to_owned());
    header.push("Type".to_owned());
    header.push("Access".to_owned());
    header.push("Role".to_owned());
    header.push("Constraint".to_owned());
    header.push("Possible Values".to_owned());
    assert(views(header@) =~= current_header());
    let ghost all = current_records(catalog@);
    let mut records: Vec<Vec<String>> = Vec::new();
    records.push(header);
    assert(row_views(records@) =~= all.take(1));
    let mut i: usize = 0;
    while i < catalog.parameters.len()
        invariant
            i <= catalog.parameters@.len(),
            all == current_records(catalog@),
            forall|k: int| 0 <= k < i + 1 ==> (#[trigger] records@[k])@.len() == 8,
            row_views(records@) =~= all.take(i + 1),
        decreases catalog.parameters@.len() - i,
    {
        let parameter = &catalog.parameters[i];
        let mut record: Vec<String> = Vec::new();
        record.push(parameter.oid.to_string());
        record.push(parameter.display_name.clone());
        record.push(join_paths(&catalog.menu_paths(parameter), " | "));
        record.push(parameter_type_name(&parameter.parameter_type));
        record.push(access_name(parameter.access).to_owned());
        record.push(role_name(parameter.role).to_owned());
        record.push(constraint_name(&parameter.constraint).to_owned());
        record.push(join(&possible_values(parameter), " | "));
        assert(views(record@) =~= current_record(catalog@, parameter@));
        assert(views(record@) == all[i + 1]);
        let ghost before = records@;
        let ghost view = views(record@);
        records.push(record);
        assert(row_views(records@) =~= row_views(before).push(view));
        i += 1;
    }
    assert(row_views(records@) =~= all);
    write_records(&records, 8)
}

/// The records of a parameter: one with its OID and its name, and one for each of its values.
pub open spec fn legacy_entry(parameter: ParameterView) -> Seq<Seq<Seq<char>>> {
    seq![seq![oid_text(parameter.oid), parameter.display_name, Seq::<char>::empty()]]
        + value_names_of(parameter).map_values(
        |name: Seq<char>| seq![Seq::<char>::empty(), Seq::<char>::empty(), " "@ + name],
    )
}

pub open spec fn legacy_header() -> Seq<Seq<char>> {
    seq!["Parameter Name"@, "Dashboard Parameter Name"@, "Value Names"@]
}

/// The header and the records of each parameter that is not layout.
pub open spec fn legacy_records(parameters: Seq<ParameterView>) -> Seq<Seq<Seq<char>>>
    decreases parameters.len(),
{
    if parameters.len() == 0 {
        seq![legacy_header()]
    } else if parameters.last().role == ParameterRole::Operational {
        legacy_records(parameters.drop_last()) + legacy_entry(parameters.last())
    } else {
        legacy_records(parameters.drop_last())
    }
}

fn record3(first: String, second: String, third: String) -> (r: Vec<String>)
    ensures
        views(r@) == seq![first@, second@, third@],
        r@.len() == 3,
{
    let mut r: Vec<String> = Vec::new();
    r.push(first);
    r.push(second);
    r.push(third);
    assert(views(r@) =~= seq![first@, second@, third@]);
    r
}

/// The parameters of a catalog that are not layout, and the names of their values, as
/// comma-separated values.
pub fn legacy(catalog: &DeviceCatalog) -> (r: Result<Vec<u8>, CsvOutputError>)
    ensures
        r matches Ok(bytes) && bytes@ == csv_records(legacy_records(catalog@.parameters)),
{
    let mut records: Vec<Vec<String>> = Vec::new();
    records.push(
        record3(
            "Parameter Name".to_owned(),
            "Dashboard Parameter Name".to_owned(),
            "Value Names".to_owned(),
        ),
    );
    let ghost all = catalog@.parameters;
    assert(row_views(records@) =~= legacy_records(all.take(0)));
    let mut i: usize = 0;
    while i < catalog.parameters.len()
        invariant
            i <= catalog.parameters@.len(),
            all == catalog@.parameters,
            forall|k: int| 0 <= k < records@.len() ==> (#[trigger] records@[k])@.len() == 3,
            row_views(records@) =~= legacy_records(all.take(i as int)),
        decreases catalog.parameters@.len() - i,
    {
        let parameter = &catalog.parameters[i];
        assert(all.take(i + 1).drop_last() =~= all.take(i as int));
        assert(all.take(i + 1).last() == parameter@);
        if parameter.role == ParameterRole::Operational {
            let ghost start = row_views(records@);
            let ghost entry = legacy_entry(parameter@);
            let record = record3(
                parameter.oid.to_string(),
                parameter.display_name.clone(),
                String::new(),
            );
            assert(views(record@)[2] =~= Seq::<char>::empty());
            assert(views(record@) =~= entry[0]);
            let ghost before = records@;
            let ghost view = views(record@);
            records.push(record);
            assert(row_views(records@) =~= row_views(before).push(view));
            assert(row_views(records@) =~= start + entry.take(1));
            let names = legacy_value_names(parameter);
            let mut j: usize = 0;
            while j < names.len()
                invariant
                    j <= names@.len(),
                    views(names@) == value_names_of(parameter@),
                    entry == legacy_entry(parameter@),
                    forall|k: int| 0 <= k < records@.len() ==> (#[trigger] records@[k])@.len() == 3,
                    row_views(records@) =~= start + entry.take(j + 1),
                decreases names@.len() - j,
            {
                let record = record3(String::new(), String::new(), concat(" ", &names[j]));
                proof {
                    assert(views(record@)[0] =~= Seq::<char>::empty());
                    assert(views(record@)[1] =~= Seq::<char>::empty());
                    assert(views(names@)[j as int] == names@[j as int]@);
                    assert(views(record@) =~= entry[j + 1]);
                }
                let ghost before = records@;
                let ghost view = views(record@);
                records.push(record);
                assert(row_views(records@) =~= row_views(before).push(view));
                j += 1;
            }
            assert(entry.take(j + 1) =~= entry);
        }
        i += 1;
    }
    assert(all.take(i as int) =~= all);
    write_records(&records, 3)
}

} // verus!
