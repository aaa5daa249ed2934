//! Laws of texts and tables.

use crate::model::{
    hex_digits, oid_text, parsed_oid, parsed_selector, OidView, SelectorView,
};
use crate::table::{
    border_line, column_width, column_widths, escaped, escaped_row, padded, row_line, table_lines,
};
use crate::text::{
    decimal, digit, fold, hex, joined, radix_text, repeated, trimmed, trimmed_end, trimmed_start,
    unsigned_value, white_space,
};
use vstd::prelude::*;

verus! {

/// Folding changes the capital letters of ASCII into small ones, and nothing else.
pub proof fn law_folding(text: Seq<char>, i: int)
    ensures
        fold(text).len() == text.len(),
        0 <= i < text.len() ==> {
            let c = text[i];
            if 'A' <= c <= 'Z' {
                fold(text)[i] as u32 == c as u32 + 32
            } else {
                fold(text)[i] == c
            }
        },
        fold(fold(text)) == fold(text),
{
    assert(fold(fold(text)) =~= fold(text));
}

/// White space is that of Unicode.
pub proof fn law_white_space(c: char)
    ensures
        white_space(c) <==> (c == ' ' || c == '\t' || c == '\n' || c == '\r' || c == '\u{b}' || c
            == '\u{c}' || c == '\u{85}' || c == '\u{a0}' || c == '\u{1680}' || '\u{2000}' <= c
            <= '\u{200a}' || c == '\u{2028}' || c == '\u{2029}' || c == '\u{202f}' || c
            == '\u{205f}' || c == '\u{3000}'),
{
}

proof fn lemma_trimmed_start(text: Seq<char>) -> (n: int)
    ensures
        0 <= n <= text.len(),
        trimmed_start(text) == text.skip(n),
        forall|i: int| 0 <= i < n ==> white_space(#[trigger] text[i]),
        n < text.len() ==> !white_space(text[n]),
    decreases text.len(),
{
    if text.len() > 0 && white_space(text[0]) {
        let rest = text.drop_first();
        let m = lemma_trimmed_start(rest);
        assert(rest.skip(m) =~= text.skip(m + 1));
        assert forall|i: int| 0 <= i < m + 1 implies white_space(#[trigger] text[i]) by {
            if i > 0 {
                assert(rest[i - 1] == text[i]);
            }
        }
        m + 1
    } else {
        assert(text.skip(0) =~= text);
        0
    }
}

proof fn lemma_trimmed_end(text: Seq<char>) -> (n: int)
    ensures
        0 <= n <= text.len(),
        trimmed_end(text) == text.take(n),
        forall|i: int| n <= i < text.len() ==> white_space(#[trigger] text[i]),
        n > 0 ==> !white_space(text[n - 1]),
    decreases text.len(),
{
    if text.len() > 0 && white_space(text.last()) {
        let rest = text.drop_last();
        let m = lemma_trimmed_end(rest);
        assert(rest.take(m) =~= text.take(m));
        assert forall|i: int| m <= i < text.len() implies white_space(#[trigger] text[i]) by {
            if i < rest.len() {
                assert(rest[i] == text[i]);
            }
        }
        m
    } else {
        assert(text.take(text.len() as int) =~= text);
        text.len() as int
    }
}

/// Trimming takes white space away from the two ends, all of it and nothing else.
pub proof fn law_trimming(text: Seq<char>)
    ensures
        exists|from: int, to: int|
            #![trigger text.subrange(from, to)]
            {
                &&& 0 <= from <= to <= text.len()
                &&& trimmed(text) == text.subrange(from, to)
                &&& forall|i: int|
                    0 <= i < text.len() && (i < from || to <= i) ==> white_space(#[trigger] text[i])
            },
        trimmed(text).len() > 0 ==> !white_space(trimmed(text)[0]) && !white_space(
            trimmed(text).last(),
        ),
{
    let from = lemma_trimmed_start(text);
    let rest = text.skip(from);
    let n = lemma_trimmed_end(rest);
    let to = from + n;
    assert(rest.take(n) =~= text.subrange(from, to));
    assert forall|i: int| 0 <= i < text.len() && (i < from || to <= i) implies white_space(
        #[trigger] text[i],
    ) by {
        if i >= from {
            assert(rest[i - from] == text[i]);
        }
    }
    if n > 0 {
        assert(!white_space(rest[n - 1]));
        assert(trimmed(text)[0] == text[from]);
    }
}

/// A number in decimal has no zero before it, but for zero itself.
pub proof fn law_decimal_has_no_leading_zero(n: nat)
    ensures
        decimal(n).len() > 0,
        decimal(n)[0] == '0' <==> n == 0,
    decreases n,
{
    if n >= 10 {
        law_decimal_has_no_leading_zero(n / 10);
        let front = radix_text(n / 10, 10, true);
        assert(decimal(n) == front.push(digit(n % 10, true)));
        assert(decimal(n)[0] == front[0]);
    }
}

/// Joined texts follow each other with the separator between neighbours.
pub proof fn law_joining(parts: Seq<Seq<char>>, part: Seq<char>, separator: Seq<char>)
    ensures
        joined(seq![], separator).len() == 0,
        joined(seq![part], separator) == part,
        parts.len() > 0 ==> joined(parts.push(part), separator) == joined(parts, separator)
            + separator + part,
{
    assert(parts.push(part).drop_last() =~= parts);
}

/// A text in a table shows its line breaks and is otherwise as it is.
pub proof fn law_escaping(text: Seq<char>, c: char)
    ensures
        escaped(seq![]).len() == 0,
        escaped(text.push(c)) == escaped(text) + (if c == '\n' {
            seq!['\\', 'n']
        } else if c == '\r' {
            seq!['\\', 'r']
        } else {
            seq![c]
        }),
{
    assert(text.push(c).drop_last() =~= text);
    assert(escaped(text).push(c) =~= escaped(text) + seq![c]);
}

/// A cell is filled up with blanks to the width of its column; nothing of it is cut off.
pub proof fn law_padding(text: Seq<char>, width: nat, i: int)
    ensures
        padded(text, width).take(text.len() as int) == text,
        padded(text, width).len() == if text.len() < width {
            width
        } else {
            text.len()
        },
        text.len() <= i < padded(text, width).len() ==> padded(text, width)[i] == ' ',
{
    assert(padded(text, width).take(text.len() as int) =~= text);
}

/// A column is as wide as its header and each of its cells, and no wider than the widest of them.
pub proof fn law_width_of_a_column(
    header: Seq<char>,
    rows: Seq<Seq<Seq<char>>>,
    column: int,
)
    ensures
        header.len() <= column_width(header, rows, column),
        forall|i: int|
            0 <= i < rows.len() ==> (#[trigger] rows[i])[column].len() <= column_width(
                header,
                rows,
                column,
            ),
        column_width(header, rows, column) == header.len() || exists|i: int|
            0 <= i < rows.len() && (#[trigger] rows[i])[column].len() == column_width(
                header,
                rows,
                column,
            ),
    decreases rows.len(),
{
    if rows.len() > 0 {
        let front = rows.drop_last();
        law_width_of_a_column(header, front, column);
        let width = column_width(header, rows, column);
        assert forall|i: int| 0 <= i < rows.len() implies (#[trigger] rows[i])[column].len()
            <= width by {
            if i < front.len() {
                assert(front[i] == rows[i]);
            }
        }
        if width == column_width(header, front, column) {
            if width != header.len() {
                let i = choose|i: int|
                    0 <= i < front.len() && (#[trigger] front[i])[column].len() == width;
                assert(rows[i] == front[i]);
            }
        } else {
            assert(rows[rows.len() - 1][column].len() == width);
        }
    }
}

/// A table has a line above the headers, one with the headers, one below them, one for each row in
/// order, and one at the end. The line of a row holds its cells, each filled up to the width of its
/// column.
pub proof fn law_lines_of_a_table(
    headers: Seq<Seq<char>>,
    rows: Seq<Seq<Seq<char>>>,
    i: int,
)
    ensures
        ({
            let cells = Seq::new(rows.len(), |r: int| escaped_row(rows[r]));
            let widths = Seq::new(headers.len(), |c: int| column_width(headers[c], cells, c));
            let lines = table_lines(headers, rows);
            let line = |texts: Seq<Seq<char>>|
                seq!['|', ' '] + joined(
                    Seq::new(texts.len(), |c: int| padded(texts[c], widths[c])),
                    seq![' ', '|', ' '],
                ) + seq![' ', '|'];
            &&& lines.len() == rows.len() + 4
            &&& lines[1] == line(headers)
            &&& 0 <= i < rows.len() ==> lines[3 + i] == line(cells[i])
            &&& lines[0] == lines[2] && lines[0] == lines[lines.len() - 1]
            &&& lines[0] == seq!['+'] + joined(
                Seq::new(widths.len(), |c: int| repeated('-', widths[c] + 2)),
                seq!['+'],
            ) + seq!['+']
        }),
{
    reveal_strlit("| ");
    reveal_strlit(" | ");
    reveal_strlit(" |");
    reveal_strlit("+");
    assert("| "@ =~= seq!['|', ' ']);
    assert(" | "@ =~= seq![' ', '|', ' ']);
    assert(" |"@ =~= seq![' ', '|']);
    assert("+"@ =~= seq!['+']);
    let cells = Seq::new(rows.len(), |r: int| escaped_row(rows[r]));
    let widths = Seq::new(headers.len(), |c: int| column_width(headers[c], cells, c));
    assert(rows.map_values(|row: Seq<Seq<char>>| escaped_row(row)) =~= cells);
    assert(column_widths(headers, cells) =~= widths);
    assert(widths.map_values(|width: nat| repeated('-', width + 2)) =~= Seq::new(
        widths.len(),
        |c: int| repeated('-', widths[c] + 2),
    ));
    assert(Seq::new(headers.len(), |c: int| padded(headers[c], widths[c])) =~= Seq::new(
        headers.len(),
        |c: int| padded(headers[c], widths[c]),
    ));
    let lines = table_lines(headers, rows);
    assert(lines[1] == row_line(headers, widths));
    assert(lines[0] == border_line(widths));
}

/// An OID is a number of 16 bits, in decimal or behind `0x` in hexadecimal, or else a text of at
/// most 254 letters, digits, dots, underscores and hyphens that starts with a letter or an
/// underscore; blanks around it do not matter.
pub proof fn law_texts_of_oids(text: Seq<char>)
    ensures
        match parsed_oid(text) {
            Ok(OidView::Numeric(n)) => match hex_digits(trimmed(text)) {
                Some(digits) => unsigned_value(digits, 16) == Some(n as nat),
                None => unsigned_value(trimmed(text), 10) == Some(n as nat),
            },
            Ok(OidView::String(name)) => name == trimmed(text) && 0 < name.len() <= 254 && (name[0]
                == '_' || 'a' <= name[0] <= 'z' || 'A' <= name[0] <= 'Z') && (forall|i: int|
                0 <= i < name.len() ==> ('a' <= #[trigger] name[i] <= 'z' || 'A' <= name[i] <= 'Z'
                    || '0' <= name[i] <= '9' || name[i] == '.' || name[i] == '_' || name[i] == '-')),
            Err(shown) => shown == trimmed(text),
        },
        hex_digits(trimmed(text)) matches Some(digits) ==> (unsigned_value(digits, 16) matches Some(
            n,
        ) && n <= 0xFFFF ==> parsed_oid(text) is Ok),
        hex_digits(trimmed(text)) is None ==> (unsigned_value(trimmed(text), 10) matches Some(n)
            && n <= 0xFFFF ==> parsed_oid(text) is Ok),
{
}

/// A numeric OID is written as `0x` and four capital hexadecimal digits, and a string OID as it is.
pub proof fn law_written_oids(oid: OidView)
    ensures
        match oid {
            OidView::Numeric(n) => oid_text(oid).len() == 6 && oid_text(oid)[0] == '0' && oid_text(
                oid,
            )[1] == 'x' && oid_text(oid)[2] == digit((n / 0x1000) as nat, true) && oid_text(oid)[3]
                == digit((n / 0x100 % 16) as nat, true) && oid_text(oid)[4] == digit(
                (n / 16 % 16) as nat,
                true,
            ) && oid_text(oid)[5] == digit((n % 16) as nat, true),
            OidView::String(name) => oid_text(oid) == name,
        },
        digit(9, true) == '9',
        digit(10, true) == 'A',
        digit(15, true) == 'F',
        digit(10, false) == 'a',
{
    reveal_strlit("0x");
    if let OidView::Numeric(n) = oid {
        reveal_with_fuel(hex, 5);
        let m = n as nat;
        assert(m / 16 / 16 == m / 0x100);
        assert(m / 16 / 16 / 16 == m / 0x1000);
        assert(m / 0x1000 % 16 == m / 0x1000);
        assert(hex(m, 4, true).len() == 4);
    }
}

/// A selector behind `oid:` is an OID, behind `name:` a display name, and elsewhere either; an empty
/// one selects nothing, and symbols are refused.
pub proof fn law_texts_of_selectors(text: Seq<char>)
    ensures
        parsed_selector(seq!['o', 'i', 'd', ':'] + text) == (match parsed_oid(text) {
            Ok(oid) => Ok(SelectorView::Oid(oid)),
            Err(_) => Err(
                "invalid parameter selector: "@ + (seq!['o', 'i', 'd', ':'] + text),
            ),
        }),
        text.len() > 0 ==> parsed_selector(seq!['n', 'a', 'm', 'e', ':'] + text) == Ok::<
            _,
            Seq<char>,
        >(SelectorView::DisplayName(text)),
        parsed_selector(seq!['n', 'a', 'm', 'e', ':']) is Err,
        parsed_selector(seq!['s', 'y', 'm', 'b', 'o', 'l', ':'] + text) is Err,
        parsed_selector(seq![]) is Err,
        text.len() > 0 && !text.contains(':') ==> parsed_selector(text) == Ok::<_, Seq<char>>(
            SelectorView::Auto(text),
        ),
{
    reveal_strlit("symbol:");
    reveal_strlit("oid:");
    reveal_strlit("name:");
    let oid = seq!['o', 'i', 'd', ':'] + text;
    let name = seq!['n', 'a', 'm', 'e', ':'] + text;
    let bare = seq!['n', 'a', 'm', 'e', ':'];
    let symbol = seq!['s', 'y', 'm', 'b', 'o', 'l', ':'] + text;
    assert(oid.take(4) =~= "oid:"@);
    assert(oid.skip(4) =~= text);
    assert(name.take(5) =~= "name:"@);
    assert(name.skip(5) =~= text);
    assert(bare.take(5) =~= "name:"@);
    assert(bare.skip(5) =~= seq![]);
    assert(symbol.take(7) =~= "symbol:"@);
    assert(oid[0] == 'o' && name[0] == 'n' && bare[0] == 'n');
    if oid.len() >= 7 {
        assert(oid.take(7)[0] == 'o');
    }
    if name.len() >= 7 {
        assert(name.take(7)[0] == 'n');
    }
    assert(name.take(4)[0] == 'n');
    assert(bare.take(4)[0] == 'n');
    if text.len() >= 7 && text.take(7) == "symbol:"@ {
        assert(text.take(7)[6] == ':');
        assert(text[6] == ':');
    }
    if text.len() >= 4 && text.take(4) == "oid:"@ {
        assert(text.take(4)[3] == ':');
        assert(text[3] == ':');
    }
    if text.len() >= 5 && text.take(5) == "name:"@ {
        assert(text.take(5)[4] == ':');
        assert(text[4] == ':');
    }
}

} // verus!
