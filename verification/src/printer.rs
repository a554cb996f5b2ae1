use crate::executer::join::rows_view;
use crate::text::{append_chars, chars_of, string_of};
use crate::types::storage_types::{names_view, Row, Value, ValueView};
use vstd::prelude::*;

verus! {

/// The character of a decimal digit.
pub open spec fn digit_char(d: int) -> char {
    ((48 + d) as u8) as char
}

/// The decimal digits of a natural number, without leading zeros.
pub open spec fn nat_digits(n: nat) -> Seq<char>
    decreases n,
{
    if n < 10 {
        seq![digit_char(n as int)]
    } else {
        nat_digits(n / 10).push(digit_char((n % 10) as int))
    }
}

/// The decimal text of an integer, with a minus sign if it is negative.
pub open spec fn int_text(i: int) -> Seq<char> {
    if i < 0 {
        seq!['-'] + nat_digits((-i) as nat)
    } else {
        nat_digits(i as nat)
    }
}

/// The text that a value is shown as: an integer in decimal, a text as it
/// is, a boolean as `true` or `false`, NULL as `NULL`.
pub open spec fn cell_text(v: ValueView) -> Seq<char> {
    match v {
        ValueView::Int(i) => int_text(i),
        ValueView::Text(s) => s,
        ValueView::Bool(b) => if b {
            "true"@
        } else {
            "false"@
        },
        ValueView::Null => "NULL"@,
    }
}

/// The text of the cell of a row in a column; empty where the row has no
/// value for the column.
pub open spec fn cell_at(row: Seq<ValueView>, i: int) -> Seq<char> {
    if 0 <= i < row.len() {
        cell_text(row[i])
    } else {
        Seq::empty()
    }
}

/// The greater of two lengths.
pub open spec fn longer(a: nat, b: nat) -> nat {
    if a >= b {
        a
    } else {
        b
    }
}

/// The width of a column over its header and the first `n` rows: the
/// length of the longest text among them.
pub open spec fn column_width(
    headers: Seq<Seq<char>>,
    rows: Seq<Seq<ValueView>>,
    i: int,
    n: int,
) -> nat
    decreases n,
{
    if n <= 0 {
        headers[i].len()
    } else {
        longer(column_width(headers, rows, i, n - 1), cell_at(rows[n - 1], i).len())
    }
}

/// A run of `n` copies of a character.
pub open spec fn run(c: char, n: nat) -> Seq<char> {
    Seq::new(n, |i: int| c)
}

/// The first `n` segments of the line that separates the parts of a table:
/// a plus sign, and for each column a run of dashes two longer than the
/// column is wide, and a plus sign.
pub open spec fn separator_upto(widths: Seq<nat>, n: int) -> Seq<char>
    decreases n,
{
    if n <= 0 {
        seq!['+']
    } else {
        separator_upto(widths, n - 1) + run('-', widths[n - 1] + 2) + seq!['+']
    }
}

/// The line that separates the parts of a table.
pub open spec fn separator(widths: Seq<nat>) -> Seq<char> {
    if widths.len() == 0 {
        "++"@
    } else {
        separator_upto(widths, widths.len() as int)
    }
}

/// The first `n` cells of a line of a table, each between a bar with a
/// blank and a blank, filled up with blanks to the width of its column.
pub open spec fn cells_upto(cells: Seq<Seq<char>>, widths: Seq<nat>, n: int) -> Seq<char>
    decreases n,
{
    if n <= 0 {
        Seq::empty()
    } else {
        cells_upto(cells, widths, n - 1) + seq!['|', ' '] + cells[n - 1] + run(
            ' ',
            (widths[n - 1] - cells[n - 1].len()) as nat,
        ) + seq![' ']
    }
}

/// A line of a table: its cells, and a bar at the end.
pub open spec fn table_line(cells: Seq<Seq<char>>, widths: Seq<nat>) -> Seq<char> {
    cells_upto(cells, widths, widths.len() as int) + seq!['|']
}

/// The widths of the columns of a table.
pub open spec fn table_widths(headers: Seq<Seq<char>>, rows: Seq<Seq<ValueView>>) -> Seq<nat> {
    Seq::new(headers.len(), |i: int| column_width(headers, rows, i, rows.len() as int))
}

/// The cells of a row, one for each of `n` columns.
pub open spec fn row_cells(row: Seq<ValueView>, n: nat) -> Seq<Seq<char>> {
    Seq::new(n, |i: int| cell_at(row, i))
}

/// The lines of a table: a separator, the headers, a separator, a line
/// for each row, and a separator. Each column is as wide as its longest
/// text.
pub open spec fn table_lines(headers: Seq<Seq<char>>, rows: Seq<Seq<ValueView>>) -> Seq<Seq<char>> {
    let widths = table_widths(headers, rows);
    seq![separator(widths), table_line(headers, widths), separator(widths)] + Seq::new(
        rows.len(),
        |k: int| table_line(row_cells(rows[k], headers.len()), widths),
    ) + seq![separator(widths)]
}

fn digits_of(n: u64) -> (r: Vec<char>)
    ensures
        r@ == nat_digits(n as nat),
    decreases n,
{
    if n < 10 {
        let mut r: Vec<char> = Vec::new();
        r.push((48 + n as u8) as char);
        assert(r@ =~= nat_digits(n as nat));
        r
    } else {
        let mut r = digits_of(n / 10);
        r.push((48 + (n % 10) as u8) as char);
        r
    }
}

/// The decimal text of an integer.
pub fn int_chars(i: i64) -> (r: Vec<char>)
    ensures
        r@ == int_text(i as int),
{
    if i < 0 {
        let magnitude: u64 = if i == i64::MIN {
            9223372036854775808u64
        } else {
            (-i) as u64
        };
        let mut r: Vec<char> = Vec::new();
        r.push('-');
        let d = digits_of(magnitude);
        append_chars(&mut r, &d);
        r
    } else {
        digits_of(i as u64)
    }
}

/// The text that a value is shown as.
pub fn cell_chars(v: &Value) -> (r: Vec<char>)
    ensures
        r@ == cell_text(v@),
{
    match v {
        Value::Int(i) => int_chars(*i),
        Value::Text(s) => chars_of(s.as_str()),
        Value::Bool(b) => if *b {
            chars_of("true")
        } else {
            chars_of("false")
        },
        Value::Null => chars_of("NULL"),
    }
}

fn cell_of(row: &Row, i: usize) -> (r: Vec<char>)
    ensures
        r@ == cell_at(row@, i as int),
{
    if i < row.values.len() {
        assert(row@[i as int] == row.values[i as int]@);
        cell_chars(&row.values[i])
    } else {
        Vec::new()
    }
}

fn push_run(line: &mut Vec<char>, c: char, n: usize)
    ensures
        final(line)@ == old(line)@ + run(c, n as nat),
{
    let mut k: usize = 0;
    while k < n
        invariant
            k <= n,
            line@ == old(line)@ + run(c, k as nat),
        decreases n - k,
    {
        line.push(c);
        assert(line@ =~= old(line)@ + run(c, (k + 1) as nat));
        k += 1;
    }
}

/// Views of a list of widths as natural numbers.
pub open spec fn widths_view(ws: Seq<usize>) -> Seq<nat> {
    Seq::new(ws.len(), |i: int| ws[i] as nat)
}

fn separator_line(widths: &Vec<usize>) -> (r: Vec<char>)
    ensures
        r@ == separator(widths_view(widths@)),
{
    if widths.len() == 0 {
        proof {
            reveal_strlit("++");
        }
        let r = chars_of("++");
        return r;
    }
    let ghost ws = widths_view(widths@);
    let mut line: Vec<char> = Vec::new();
    line.push('+');
    assert(line@ =~= separator_upto(ws, 0));
    let mut i: usize = 0;
    while i < widths.len()
        invariant
            i <= widths.len(),
            ws == widths_view(widths@),
            line@ == separator_upto(ws, i as int),
        decreases widths.len() - i,
    {
        let ghost before = line@;
        push_run(&mut line, '-', widths[i]);
        line.push('-');
        line.push('-');
        line.push('+');
        assert(run('-', ws[i as int] + 2) =~= run('-', ws[i as int]) + seq!['-', '-']);
        assert(line@ =~= before + run('-', ws[i as int] + 2) + seq!['+']);
        i += 1;
    }
    line
}

fn cells_line(cells: &Vec<Vec<char>>, widths: &Vec<usize>) -> (r: Vec<char>)
    requires
        cells.len() == widths.len(),
        forall|i: int| 0 <= i < cells@.len() ==> (#[trigger] cells@[i])@.len() <= widths@[i],
    ensures
        r@ == table_line(crate::text::pieces_view(cells@), widths_view(widths@)),
{
    let ghost cs = crate::text::pieces_view(cells@);
    let ghost ws = widths_view(widths@);
    let mut line: Vec<char> = Vec::new();
    let mut i: usize = 0;
    assert(line@ =~= cells_upto(cs, ws, 0));
    while i < widths.len()
        invariant
            i <= widths.len(),
            cells.len() == widths.len(),
            forall|k: int| 0 <= k < cells@.len() ==> (#[trigger] cells@[k])@.len() <= widths@[k],
            cs == crate::text::pieces_view(cells@),
            ws == widths_view(widths@),
            line@ == cells_upto(cs, ws, i as int),
        decreases widths.len() - i,
    {
        let ghost before = line@;
        assert(cs[i as int] == cells@[i as int]@);
        line.push('|');
        line.push(' ');
        append_chars(&mut line, &cells[i]);
        push_run(&mut line, ' ', widths[i] - cells[i].len());
        line.push(' ');
        assert(line@ =~= before + seq!['|', ' '] + cs[i as int] + run(
            ' ',
            (ws[i as int] - cs[i as int].len()) as nat,
        ) + seq![' ']);
        i += 1;
    }
    line.push('|');
    line
}

fn to_string(v: &Vec<char>) -> (s: String)
    ensures
        s@ == v@,
{
    assert(v@.subrange(0, v.len() as int) =~= v@);
    string_of(v, 0, v.len())
}

/// Renders a table with borders of `+`, `-` and `|`: the headers and the
/// rows, each column as wide as its longest text. Of a row, the values
/// beyond the last column are left out, and a missing value is shown empty.
pub fn format_table(headers: &Vec<String>, rows: &Vec<Row>) -> (lines: Vec<String>)
    ensures
        names_view(lines@) == table_lines(names_view(headers@), rows_view(rows@)),
{
    let ghost hs = names_view(headers@);
    let ghost rs = rows_view(rows@);
    let n = headers.len();
    let mut header_cells: Vec<Vec<char>> = Vec::new();
    let mut widths: Vec<usize> = Vec::new();
    let mut c: usize = 0;
    while c < n
        invariant
            c <= n,
            n == headers.len(),
            hs == names_view(headers@),
            rs == rows_view(rows@),
            header_cells.len() == c,
            widths.len() == c,
            forall|i: int| 0 <= i < c ==> (#[trigger] header_cells@[i])@ == hs[i],
            forall|i: int|
                0 <= i < c ==> (#[trigger] widths@[i]) as nat == column_width(
                    hs,
                    rs,
                    i,
                    rs.len() as int,
                ),
        decreases n - c,
    {
        assert(hs[c as int] == headers[c as int]@);
        let name = chars_of(headers[c].as_str());
        let mut w: usize = name.len();
        let mut k: usize = 0;
        while k < rows.len()
            invariant
                k <= rows.len(),
                c < n,
                hs == names_view(headers@),
                rs == rows_view(rows@),
                w as nat == column_width(hs, rs, c as int, k as int),
            decreases rows.len() - k,
        {
            assert(rs[k as int] == rows[k as int]@);
            let cell = cell_of(&rows[k], c);
            if cell.len() > w {
                w = cell.len();
            }
            k += 1;
        }
        header_cells.push(name);
        widths.push(w);
        c += 1;
    }
    let ghost ws = table_widths(hs, rs);
    assert(widths_view(widths@) =~= ws);
    assert(crate::text::pieces_view(header_cells@) =~= hs);
    proof {
        assert forall|i: int| 0 <= i < header_cells@.len() implies (
        #[trigger] header_cells@[i])@.len() <= widths@[i] by {
            lemma_width_covers(hs, rs, i, rs.len() as int);
        }
    }
    let mut lines: Vec<String> = Vec::new();
    let sep = separator_line(&widths);
    lines.push(to_string(&sep));
    let header_line = cells_line(&header_cells, &widths);
    lines.push(to_string(&header_line));
    lines.push(to_string(&sep));
    let ghost head = names_view(lines@);
    assert(head =~= seq![separator(ws), table_line(hs, ws), separator(ws)]);
    let mut k: usize = 0;
    while k < rows.len()
        invariant
            k <= rows.len(),
            n == headers.len(),
            widths.len() == n,
            hs == names_view(headers@),
            rs == rows_view(rows@),
            ws == table_widths(hs, rs),
            widths_view(widths@) == ws,
            names_view(lines@) == head + Seq::new(
                k as nat,
                |j: int| table_line(row_cells(rs[j], hs.len()), ws),
            ),
        decreases rows.len() - k,
    {
        assert(rs[k as int] == rows[k as int]@);
        let mut cells: Vec<Vec<char>> = Vec::new();
        let mut c: usize = 0;
        while c < n
            invariant
                c <= n,
                k < rows.len(),
                n == headers.len(),
                widths.len() == n,
                hs == names_view(headers@),
                rs == rows_view(rows@),
                ws == table_widths(hs, rs),
                widths_view(widths@) == ws,
                cells.len() == c,
                forall|i: int| 0 <= i < c ==> (#[trigger] cells@[i])@ == cell_at(rs[k as int], i),
                forall|i: int| 0 <= i < c ==> (#[trigger] cells@[i])@.len() <= widths@[i],
            decreases n - c,
        {
            let cell = cell_of(&rows[k], c);
            proof {
                lemma_width_covers_row(hs, rs, c as int, rs.len() as int, k as int);
                assert(widths_view(widths@)[c as int] == widths@[c as int] as nat);
            }
            cells.push(cell);
            c += 1;
        }
        assert(crate::text::pieces_view(cells@) =~= row_cells(rs[k as int], hs.len()));
        let line = cells_line(&cells, &widths);
        let ghost before = names_view(lines@);
        lines.push(to_string(&line));
        assert(names_view(lines@) =~= before.push(
            table_line(row_cells(rs[k as int], hs.len()), ws),
        ));
        assert(before.push(table_line(row_cells(rs[k as int], hs.len()), ws)) =~= head + Seq::new(
            (k + 1) as nat,
            |j: int| table_line(row_cells(rs[j], hs.len()), ws),
        ));
        k += 1;
    }
    let ghost before = names_view(lines@);
    lines.push(to_string(&sep));
    assert(names_view(lines@) =~= before.push(separator(ws)));
    assert(names_view(lines@) =~= table_lines(hs, rs));
    lines
}

/// A column is at least as wide as its header.
pub proof fn lemma_width_covers(headers: Seq<Seq<char>>, rows: Seq<Seq<ValueView>>, i: int, n: int)
    requires
        0 <= n,
    ensures
        headers[i].len() <= column_width(headers, rows, i, n),
    decreases n,
{
    if n > 0 {
        lemma_width_covers(headers, rows, i, n - 1);
    }
}

/// A column is at least as wide as each of its cells.
pub proof fn lemma_width_covers_row(
    headers: Seq<Seq<char>>,
    rows: Seq<Seq<ValueView>>,
    i: int,
    n: int,
    k: int,
)
    requires
        0 <= k < n,
    ensures
        cell_at(rows[k], i).len() <= column_width(headers, rows, i, n),
    decreases n,
{
    if k < n - 1 {
        lemma_width_covers_row(headers, rows, i, n - 1, k);
    }
}

} // verus!
