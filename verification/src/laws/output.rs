//! Laws of what is printed.

use super::naming::{law_catalog_needs_distinct_oids, lemma_members};
use crate::catalog::{new_catalog, resolved_menu, CatalogView};
use crate::cli::command::{listed, operational, selection};
use crate::csv_output::{csv_field, doubled, needs_quotes, value_headers, value_lines, value_rows};
use crate::model::{ParameterView, SelectorView};
use crate::table::{
    border_line, column_widths, escaped, escaped_row, padded, row_line, table_lines,
};
use crate::text::{joined, repeated};
use vstd::prelude::*;

verus! {

/// A field with each pair of quotes made one.
pub open spec fn halved(field: Seq<u8>) -> Seq<u8>
    decreases field.len(),
{
    if field.len() == 0 {
        seq![]
    } else if field.last() == 0x22 && field.len() >= 2 && field[field.len() - 2] == 0x22 {
        halved(field.take(field.len() - 2)).push(0x22)
    } else {
        halved(field.drop_last()).push(field.last())
    }
}

/// What a field stands for: what is between its quotes, or the field itself.
pub open spec fn field_read(field: Seq<u8>) -> Seq<u8> {
    if field.len() >= 2 && field[0] == 0x22 {
        halved(field.subrange(1, field.len() - 1))
    } else {
        field
    }
}

proof fn lemma_halved_doubled(field: Seq<u8>)
    ensures
        halved(doubled(field)) == field,
    decreases field.len(),
{
    if field.len() == 0 {
        assert(field =~= seq![]);
    } else {
        let front = field.drop_last();
        let text = doubled(field);
        lemma_halved_doubled(front);
        if field.last() == 0x22 {
            assert(text.take(text.len() - 2) =~= doubled(front));
            assert(text.last() == 0x22 && text[text.len() - 2] == 0x22);
        } else {
            assert(text.drop_last() =~= doubled(front));
        }
        assert(front.push(field.last()) =~= field);
    }
}

/// A field is read as it was written, whatever it holds.
pub proof fn law_csv_field_round_trip(field: Seq<u8>)
    ensures
        field_read(csv_field(field)) == field,
{
    if needs_quotes(field) {
        let text = csv_field(field);
        assert(text.subrange(1, text.len() - 1) =~= doubled(field));
        lemma_halved_doubled(field);
    } else if field.len() > 0 && field[0] == 0x22 {
        assert(field.contains(0x22));
    }
}

/// Whether a text is one line.
pub open spec fn one_line(text: Seq<char>) -> bool {
    forall|i: int| 0 <= i < text.len() ==> #[trigger] text[i] != '\n' && text[i] != '\r'
}

proof fn lemma_one_line_joined(parts: Seq<Seq<char>>, separator: Seq<char>)
    requires
        one_line(separator),
        forall|i: int| 0 <= i < parts.len() ==> one_line(#[trigger] parts[i]),
    ensures
        one_line(joined(parts, separator)),
    decreases parts.len(),
{
    if parts.len() == 1 {
        assert(one_line(parts[0]));
    } else if parts.len() > 1 {
        let front = parts.drop_last();
        assert forall|i: int| 0 <= i < front.len() implies one_line(#[trigger] front[i]) by {
            assert(front[i] == parts[i]);
        }
        lemma_one_line_joined(front, separator);
        assert(one_line(parts[parts.len() - 1]));
        lemma_one_line_concat(joined(front, separator), separator);
        lemma_one_line_concat(joined(front, separator) + separator, parts.last());
    }
}

proof fn lemma_one_line_concat(left: Seq<char>, right: Seq<char>)
    requires
        one_line(left),
        one_line(right),
    ensures
        one_line(left + right),
{
    let both = left + right;
    assert forall|i: int| 0 <= i < both.len() implies #[trigger] both[i] != '\n' && both[i]
        != '\r' by {
        if i < left.len() {
            assert(both[i] == left[i]);
        } else {
            assert(both[i] == right[i - left.len()]);
        }
    }
}

proof fn lemma_one_line_escaped(text: Seq<char>)
    ensures
        one_line(escaped(text)),
    decreases text.len(),
{
    if text.len() > 0 {
        let front = escaped(text.drop_last());
        lemma_one_line_escaped(text.drop_last());
        if text.last() == '\r' {
            lemma_one_line_concat(front, seq!['\\', 'r']);
        } else if text.last() == '\n' {
            lemma_one_line_concat(front, seq!['\\', 'n']);
        } else {
            lemma_one_line_concat(front, seq![text.last()]);
            assert(front + seq![text.last()] =~= front.push(text.last()));
        }
    }
}

proof fn lemma_one_line_padded(text: Seq<char>, width: nat)
    requires
        one_line(text),
    ensures
        one_line(padded(text, width)),
{
    if text.len() < width {
        lemma_one_line_concat(text, repeated(' ', (width - text.len()) as nat));
    }
}

proof fn lemma_one_line_row(cells: Seq<Seq<char>>, widths: Seq<nat>)
    requires
        forall|i: int| 0 <= i < cells.len() ==> one_line(#[trigger] cells[i]),
    ensures
        one_line(row_line(cells, widths)),
{
    reveal_strlit("| ");
    reveal_strlit(" | ");
    reveal_strlit(" |");
    let parts = Seq::new(cells.len(), |i: int| padded(cells[i], widths[i]));
    assert forall|i: int| 0 <= i < parts.len() implies one_line(#[trigger] parts[i]) by {
        assert(one_line(cells[i]));
        lemma_one_line_padded(cells[i], widths[i]);
    }
    lemma_one_line_joined(parts, " | "@);
    lemma_one_line_concat("| "@, joined(parts, " | "@));
    lemma_one_line_concat("| "@ + joined(parts, " | "@), " |"@);
}

proof fn lemma_one_line_border(widths: Seq<nat>)
    ensures
        one_line(border_line(widths)),
{
    reveal_strlit("+");
    let parts = widths.map_values(|width: nat| repeated('-', width + 2));
    lemma_one_line_joined(parts, "+"@);
    lemma_one_line_concat("+"@, joined(parts, "+"@));
    lemma_one_line_concat("+"@ + joined(parts, "+"@), "+"@);
}

/// Whatever the cells of a table hold, each of its lines is one line.
pub proof fn law_table_line_is_one_line(
    headers: Seq<Seq<char>>,
    rows: Seq<Seq<Seq<char>>>,
    index: int,
)
    requires
        forall|i: int| 0 <= i < headers.len() ==> one_line(#[trigger] headers[i]),
        0 <= index < table_lines(headers, rows).len(),
    ensures
        one_line(table_lines(headers, rows)[index]),
{
    let cells = rows.map_values(|row: Seq<Seq<char>>| escaped_row(row));
    let widths = column_widths(headers, cells);
    lemma_one_line_border(widths);
    lemma_one_line_row(headers, widths);
    let lines = table_lines(headers, rows);
    if 3 <= index < lines.len() - 1 {
        let row = cells[index - 3];
        assert(row == escaped_row(rows[index - 3]));
        assert forall|i: int| 0 <= i < row.len() implies one_line(#[trigger] row[i]) by {
            lemma_one_line_escaped(rows[index - 3][i]);
        }
        lemma_one_line_row(row, widths);
        assert(lines[index] == row_line(row, widths));
    }
}

/// Each line of the table of a parameter's values is one line.
pub proof fn law_value_line_is_one_line(parameter: ParameterView, index: int)
    requires
        value_lines(parameter) is Some,
        0 <= index < value_lines(parameter)->0.len(),
    ensures
        one_line(value_lines(parameter)->0[index]),
{
    reveal_strlit("BUTTON");
    reveal_strlit("ACTION RAW VALUE");
    reveal_strlit("VALUE");
    reveal_strlit("RAW VALUE");
    reveal_strlit("BIT");
    reveal_strlit("MINIMUM");
    reveal_strlit("MAXIMUM");
    reveal_strlit("STEP");
    law_table_line_is_one_line(value_headers(parameter), value_rows(parameter)->0, index);
}

/// Whether no two of the parameters share an OID.
pub open spec fn distinct(parameters: Seq<ParameterView>) -> bool {
    forall|i: int, j: int|
        0 <= i < j < parameters.len() ==> parameters[i].oid != parameters[j].oid
}

/// Parameters with distinct OIDs stay distinct where some are left out.
pub proof fn lemma_filter_distinct(
    parameters: Seq<ParameterView>,
    keep: spec_fn(ParameterView) -> bool,
)
    requires
        distinct(parameters),
    ensures
        distinct(parameters.filter(keep)),
        forall|i: int|
            0 <= i < parameters.filter(keep).len() ==> parameters.contains(
                #[trigger] parameters.filter(keep)[i],
            ),
    decreases parameters.len(),
{
    reveal(Seq::filter);
    if parameters.len() > 0 {
        let front = parameters.drop_last();
        assert forall|i: int, j: int| 0 <= i < j < front.len() implies front[i].oid
            != front[j].oid by {
            assert(parameters[i].oid != parameters[j].oid);
        }
        lemma_filter_distinct(front, keep);
        let before = front.filter(keep);
        let all = parameters.filter(keep);
        assert forall|i: int| 0 <= i < all.len() implies parameters.contains(#[trigger] all[i]) by {
            if i < before.len() {
                assert(all[i] == before[i]);
                let k = choose|k: int| 0 <= k < front.len() && front[k] == before[i];
                assert(parameters[k] == all[i]);
            } else {
                assert(parameters[parameters.len() - 1] == all[i]);
            }
        }
        assert forall|i: int, j: int| 0 <= i < j < all.len() implies all[i].oid != all[j].oid by {
            if j < before.len() {
                assert(before[i].oid != before[j].oid);
            } else {
                assert(front.contains(before[i]));
                let k = choose|k: int| 0 <= k < front.len() && front[k] == before[i];
                assert(parameters[k].oid != parameters[parameters.len() - 1].oid);
            }
        }
    }
}

/// Whatever is listed of a catalog with distinct OIDs is such a catalog again.
pub proof fn law_listed_parameters_make_a_catalog(
    catalog: CatalogView,
    group: Option<Seq<char>>,
    menu: Option<Seq<char>>,
    selector: Option<SelectorView>,
    table: bool,
)
    requires
        new_catalog(catalog.parameters) is Ok,
        listed(catalog, group, menu, selector, table) is Ok,
    ensures
        selection(catalog, listed(catalog, group, menu, selector, table)->Ok_0) is Ok,
{
    let parameters = listed(catalog, group, menu, selector, table)->Ok_0;
    law_catalog_needs_distinct_oids(catalog.parameters);
    law_catalog_needs_distinct_oids(parameters);
    match (menu, selector) {
        (None, None) => {
            lemma_filter_distinct(catalog.parameters, operational());
        },
        (Some(name), None) => {
            let place = resolved_menu(catalog, group, name)->Ok_0;
            lemma_members(catalog.parameters, place.1.members);
        },
        (_, Some(_)) => {},
    }
}

} // verus!
