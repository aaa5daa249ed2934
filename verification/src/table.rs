//! Tables drawn with characters.

use crate::text::{chars_of, join, joined, push_repeated, repeated};
use crate::views::views;
use vstd::prelude::*;
use vstd::string::*;

verus! {

/// The cells of each row.
pub open spec fn row_views(rows: Seq<Vec<String>>) -> Seq<Seq<Seq<char>>> {
    rows.map_values(|row: Vec<String>| views(row@))
}

/// The widths as numbers.
pub open spec fn sizes_of(widths: Seq<usize>) -> Seq<nat> {
    widths.map_values(|width: usize| width as nat)
}

/// A text with its line breaks made visible.
pub open spec fn escaped(text: Seq<char>) -> Seq<char>
    decreases text.len(),
{
    if text.len() == 0 {
        seq![]
    } else if text.last() == '\r' {
        escaped(text.drop_last()) + seq!['\\', 'r']
    } else if text.last() == '\n' {
        escaped(text.drop_last()) + seq!['\\', 'n']
    } else {
        escaped(text.drop_last()).push(text.last())
    }
}

/// The cells of a row with their line breaks made visible.
pub open spec fn escaped_row(row: Seq<Seq<char>>) -> Seq<Seq<char>> {
    row.map_values(|cell: Seq<char>| escaped(cell))
}

/// The width of a column: that of its widest cell, or of its header.
pub open spec fn column_width(header: Seq<char>, rows: Seq<Seq<Seq<char>>>, column: int) -> nat
    decreases rows.len(),
{
    if rows.len() == 0 {
        header.len()
    } else {
        let width = column_width(header, rows.drop_last(), column);
        let cell = rows.last()[column].len();
        if cell > width {
            cell
        } else {
            width
        }
    }
}

/// The width of each column.
pub open spec fn column_widths(headers: Seq<Seq<char>>, rows: Seq<Seq<Seq<char>>>) -> Seq<nat> {
    Seq::new(headers.len(), |column: int| column_width(headers[column], rows, column))
}

/// A text with blanks behind it up to a width.
pub open spec fn padded(text: Seq<char>, width: nat) -> Seq<char> {
    if text.len() < width {
        text + repeated(' ', (width - text.len()) as nat)
    } else {
        text
    }
}

/// The line above, below and between the parts of a table.
pub open spec fn border_line(widths: Seq<nat>) -> Seq<char> {
    "+"@ + joined(widths.map_values(|width: nat| repeated('-', width + 2)), "+"@) + "+"@
}

/// The line of a row.
pub open spec fn row_line(cells: Seq<Seq<char>>, widths: Seq<nat>) -> Seq<char> {
    "| "@ + joined(Seq::new(cells.len(), |i: int| padded(cells[i], widths[i])), " | "@) + " |"@
}

/// The lines of a table with the headers and, in the rows below them, the cells.
pub open spec fn table_lines(headers: Seq<Seq<char>>, rows: Seq<Seq<Seq<char>>>) -> Seq<
    Seq<char>,
> {
    let cells = rows.map_values(|row: Seq<Seq<char>>| escaped_row(row));
    let widths = column_widths(headers, cells);
    seq![border_line(widths), row_line(headers, widths), border_line(widths)] + cells.map_values(
        |row: Seq<Seq<char>>| row_line(row, widths),
    ) + seq![border_line(widths)]
}

/// A text with its line breaks made visible.
pub fn escape_cell(text: &str) -> (r: String)
    ensures
        r@ == escaped(text@),
{
    let chars = chars_of(text);
    let mut r = String::new();
    let mut i: usize = 0;
    assert(chars@.take(0) =~= seq![]);
    while i < chars.len()
        invariant
            i <= chars@.len(),
            chars@ == text@,
            r@ == escaped(chars@.take(i as int)),
        decreases chars@.len() - i,
    {
        let c = chars[i];
        let ghost before = r@;
        assert(chars@.take(i + 1).drop_last() =~= chars@.take(i as int));
        assert(chars@.take(i + 1).last() == c);
        if c == '\r' {
            r.push('\\');
            r.push('r');
            assert(r@ =~= before + seq!['\\', 'r']);
        } else if c == '\n' {
            r.push('\\');
            r.push('n');
            assert(r@ =~= before + seq!['\\', 'n']);
        } else {
            r.push(c);
        }
        i += 1;
    }
    assert(chars@.take(i as int) =~= chars@);
    r
}

/// How many characters a text has.
pub fn length_of(text: &str) -> (r: usize)
    ensures
        r == text@.len(),
{
    chars_of(text).len()
}

/// Appends a text with blanks behind it up to a width.
pub fn push_padded(line: &mut String, text: &str, width: usize)
    ensures
        final(line)@ == old(line)@ + padded(text@, width as nat),
{
    line.append(text);
    let length: usize = length_of(text);
    if length < width {
        push_repeated(line, ' ', width - length);
    }
    assert(line@ =~= old(line)@ + padded(text@, width as nat));
}

fn border(widths: &Vec<usize>) -> (r: String)
    ensures
        r@ == border_line(sizes_of(widths@)),
{
    let mut parts: Vec<String> = Vec::new();
    let mut i: usize = 0;
    let ghost sizes = sizes_of(widths@);
    let ghost all = sizes.map_values(|width: nat| repeated('-', width + 2));
    while i < widths.len()
        invariant
            i <= widths@.len(),
            sizes == sizes_of(widths@),
            all == sizes.map_values(|width: nat| repeated('-', width + 2)),
            views(parts@) =~= all.take(i as int),
        decreases widths@.len() - i,
    {
        let mut part = String::new();
        push_repeated(&mut part, '-', widths[i]);
        part.push('-');
        part.push('-');
        assert(part@ =~= all[i as int]);
        let ghost before = parts@;
        let ghost view = part@;
        parts.push(part);
        assert(views(parts@) =~= views(before).push(view));
        i += 1;
    }
    assert(views(parts@) =~= all);
    let mut line = "+".to_owned();
    line.append(&join(&parts, "+"));
    line.append("+");
    line
}

fn row(cells: &Vec<String>, widths: &Vec<usize>) -> (r: String)
    requires
        cells@.len() == widths@.len(),
    ensures
        r@ == row_line(views(cells@), sizes_of(widths@)),
{
    let mut parts: Vec<String> = Vec::new();
    let mut i: usize = 0;
    let ghost texts = views(cells@);
    let ghost sizes = sizes_of(widths@);
    let ghost all = Seq::new(texts.len(), |k: int| padded(texts[k], sizes[k]));
    while i < cells.len()
        invariant
            i <= cells@.len() == widths@.len(),
            texts == views(cells@),
            sizes == sizes_of(widths@),
            all == Seq::new(texts.len(), |k: int| padded(texts[k], sizes[k])),
            views(parts@) =~= all.take(i as int),
        decreases cells@.len() - i,
    {
        let mut part = String::new();
        push_padded(&mut part, &cells[i], widths[i]);
        assert(part@ =~= all[i as int]);
        let ghost before = parts@;
        let ghost view = part@;
        parts.push(part);
        assert(views(parts@) =~= views(before).push(view));
        i += 1;
    }
    assert(views(parts@) =~= all);
    let mut line = "| ".to_owned();
    line.append(&join(&parts, " | "));
    line.append(" |");
    line
}

fn escape_row(cells: &Vec<String>) -> (r: Vec<String>)
    ensures
        views(r@) == escaped_row(views(cells@)),
{
    let mut r: Vec<String> = Vec::new();
    let mut i: usize = 0;
    let ghost all = escaped_row(views(cells@));
    while i < cells.len()
        invariant
            i <= cells@.len(),
            all == escaped_row(views(cells@)),
            views(r@) =~= all.take(i as int),
        decreases cells@.len() - i,
    {
        let cell = escape_cell(&cells[i]);
        assert(cell@ == all[i as int]);
        let ghost before = r@;
        let ghost view = cell@;
        r.push(cell);
        assert(views(r@) =~= views(before).push(view));
        i += 1;
    }
    assert(views(r@) =~= all);
    r
}

fn width(header: &str, rows: &Vec<Vec<String>>, column: usize) -> (r: usize)
    requires
        forall|i: int| 0 <= i < rows@.len() ==> column < (#[trigger] rows@[i])@.len(),
    ensures
        r == column_width(header@, row_views(rows@), column as int),
{
    let mut width: usize = length_of(header);
    let mut i: usize = 0;
    let ghost all = row_views(rows@);
    while i < rows.len()
        invariant
            i <= rows@.len(),
            all == row_views(rows@),
            forall|k: int| 0 <= k < rows@.len() ==> column < (#[trigger] rows@[k])@.len(),
            width == column_width(header@, all.take(i as int), column as int),
        decreases rows@.len() - i,
    {
        assert(all.take(i + 1).drop_last() =~= all.take(i as int));
        assert(column < rows@[i as int]@.len());
        assert(all.take(i + 1).last()[column as int] == rows@[i as int]@[column as int]@);
        let cell: usize = length_of(&rows[i][column]);
        if cell > width {
            width = cell;
        }
        i += 1;
    }
    assert(all.take(i as int) =~= all);
    width
}

/// The lines of a table with the headers and, in the rows below them, the cells.
pub fn draw(headers: &Vec<String>, rows: &Vec<Vec<String>>) -> (r: Vec<String>)
    requires
        forall|i: int| 0 <= i < rows@.len() ==> (#[trigger] rows@[i])@.len() == headers@.len(),
    ensures
        views(r@) == table_lines(views(headers@), row_views(rows@)),
{
    let ghost raw = row_views(rows@);
    let ghost all = raw.map_values(|row: Seq<Seq<char>>| escaped_row(row));
    let mut cells: Vec<Vec<String>> = Vec::new();
    let mut i: usize = 0;
    while i < rows.len()
        invariant
            i <= rows@.len(),
            raw == row_views(rows@),
            all == raw.map_values(|row: Seq<Seq<char>>| escaped_row(row)),
            forall|k: int| 0 <= k < rows@.len() ==> (#[trigger] rows@[k])@.len() == headers@.len(),
            forall|k: int| 0 <= k < i ==> (#[trigger] cells@[k])@.len() == headers@.len(),
            row_views(cells@) =~= all.take(i as int),
        decreases rows@.len() - i,
    {
        let escaped = escape_row(&rows[i]);
        assert(views(escaped@) == all[i as int]);
        assert(rows@[i as int]@.len() == headers@.len());
        assert(views(escaped@).len() == escaped@.len());
        let ghost before = cells@;
        let ghost view = views(escaped@);
        cells.push(escaped);
        assert(row_views(cells@) =~= row_views(before).push(view));
        i += 1;
    }
    assert(row_views(cells@) =~= all);
    let mut widths: Vec<usize> = Vec::new();
    let ghost sizes = column_widths(views(headers@), all);
    let mut column: usize = 0;
    while column < headers.len()
        invariant
            column <= headers@.len(),
            row_views(cells@) == all,
            forall|k: int| 0 <= k < cells@.len() ==> (#[trigger] cells@[k])@.len() == headers@.len(),
            sizes == column_widths(views(headers@), all),
            sizes_of(widths@) =~= sizes.take(column as int),
        decreases headers@.len() - column,
    {
        let size: usize = width(&headers[column], &cells, column);
        assert(size == sizes[column as int]);
        let ghost before = widths@;
        widths.push(size);
        assert(sizes_of(widths@) =~= sizes_of(before).push(size as nat));
        column += 1;
    }
    assert(sizes_of(widths@) =~= sizes);
    let edge = border(&widths);
    let mut lines: Vec<String> = Vec::new();
    lines.push(edge.clone());
    lines.push(row(headers, &widths));
    lines.push(edge.clone());
    let ghost start = seq![
        border_line(sizes),
        row_line(views(headers@), sizes),
        border_line(sizes),
    ];
    let ghost body = all.map_values(|row: Seq<Seq<char>>| row_line(row, sizes));
    assert(views(lines@) =~= start + body.take(0));
    let mut j: usize = 0;
    while j < cells.len()
        invariant
            j <= cells@.len(),
            row_views(cells@) == all,
            forall|k: int| 0 <= k < cells@.len() ==> (#[trigger] cells@[k])@.len() == headers@.len(),
            sizes_of(widths@) == sizes,
            widths@.len() == headers@.len(),
            body == all.map_values(|row: Seq<Seq<char>>| row_line(row, sizes)),
            views(lines@) =~= start + body.take(j as int),
        decreases cells@.len() - j,
    {
        assert(cells@[j as int]@.len() == headers@.len());
        let line = row(&cells[j], &widths);
        assert(line@ == body[j as int]) by {
            assert(all[j as int] == views(cells@[j as int]@));
        }
        let ghost before = lines@;
        let ghost view = line@;
        lines.push(line);
        assert(views(lines@) =~= views(before).push(view));
        j += 1;
    }
    assert(body.take(j as int) =~= body);
    lines.push(edge);
    assert(views(lines@) =~= table_lines(views(headers@), row_views(rows@)));
    lines
}

} // verus!
