//! Tables and colours for the terminal.

use crate::dns_provider::DnsSummary;
use crate::proxy_provider::npm::NpmSummary;
use crate::reconciler::diff;
use crate::text;
use vstd::prelude::*;
use vstd::string::StringExecFns;

verus! {

/// The number of bytes that a text takes.
pub open spec fn byte_len(s: Seq<char>) -> nat {
    vstd::utf8::encode_utf8(s).len()
}

/// The width of a column: the greatest number of bytes in a cell.
pub open spec fn column_width(header: Seq<char>, rows: Seq<Seq<Seq<char>>>, column: int) -> nat
    decreases rows.len(),
{
    if rows.len() == 0 {
        byte_len(header)
    } else {
        let before = column_width(header, rows.drop_last(), column);
        if column < rows.last().len() && byte_len(rows.last()[column]) > before {
            byte_len(rows.last()[column])
        } else {
            before
        }
    }
}

/// The widths of all columns.
pub open spec fn widths_of(headers: Seq<Seq<char>>, rows: Seq<Seq<Seq<char>>>) -> Seq<nat> {
    Seq::new(headers.len(), |i: int| column_width(headers[i], rows, i))
}

/// What a list of widths is.
pub open spec fn widths_view(widths: Seq<usize>) -> Seq<nat> {
    widths.map_values(|w: usize| w as nat)
}

/// The texts that a list of references leads to.
pub open spec fn strs_view(list: Seq<&str>) -> Seq<Seq<char>> {
    list.map_values(|s: &str| s@)
}

/// The widths of the columns.
pub fn table_widths(headers: &[&str], rows: &[Vec<String>]) -> (r: Vec<usize>)
    ensures
        widths_view(r@) == widths_of(strs_view(headers@), diff::text_lists(rows@)),
{
    let ghost heads = strs_view(headers@);
    let ghost lists = diff::text_lists(rows@);
    let ghost want = widths_of(heads, lists);
    let mut widths: Vec<usize> = Vec::new();
    let mut i: usize = 0;
    while i < headers.len()
        invariant
            i <= headers@.len(),
            heads == strs_view(headers@),
            lists == diff::text_lists(rows@),
            want == widths_of(heads, lists),
            widths_view(widths@) == want.take(i as int),
        decreases headers@.len() - i,
    {
        let mut width: usize = headers[i].as_bytes().len();
        let mut j: usize = 0;
        assert(lists.take(0) =~= Seq::empty());
        while j < rows.len()
            invariant
                i < headers@.len(),
                heads == strs_view(headers@),
                lists == diff::text_lists(rows@),
                j <= rows@.len(),
                width == column_width(heads[i as int], lists.take(j as int), i as int),
            decreases rows@.len() - j,
        {
            assert(lists.take(j + 1).drop_last() =~= lists.take(j as int));
            assert(lists.take(j + 1).last() == text::texts(rows@[j as int]@));
            let row = &rows[j];
            if i < row.len() {
                let len: usize = row[i].as_str().as_bytes().len();
                if len > width {
                    width = len;
                }
            }
            j = j + 1;
        }
        assert(lists.take(j as int) =~= lists);
        let ghost before = widths@;
        widths.push(width);
        assert(widths_view(widths@) =~= widths_view(before).push(width as nat));
        assert(want.take(i + 1) =~= want.take(i as int).push(want[i as int]));
        i = i + 1;
    }
    assert(want.take(i as int) =~= want);
    widths
}

/// Texts one behind the other with a separator between.
pub open spec fn joined(parts: Seq<Seq<char>>, separator: Seq<char>) -> Seq<char>
    decreases parts.len(),
{
    if parts.len() == 0 {
        Seq::empty()
    } else if parts.len() == 1 {
        parts[0]
    } else {
        joined(parts.drop_last(), separator) + separator + parts.last()
    }
}

/// Texts between edges.
pub open spec fn edged(parts: Seq<Seq<char>>, edge: Seq<char>) -> Seq<char> {
    edge + joined(parts, edge) + edge
}

/// A character, repeated.
pub open spec fn repeated(c: char, n: nat) -> Seq<char> {
    Seq::new(n, |i: int| c)
}

/// The line above and below rows of cells of the given widths.
pub open spec fn border_of(widths: Seq<nat>) -> Seq<char> {
    edged(widths.map_values(|w: nat| repeated('-', w + 2)), "+"@)
}

/// A text, filled up with spaces to a width in characters.
pub open spec fn padded(value: Seq<char>, width: nat) -> Seq<char> {
    if value.len() >= width {
        value
    } else {
        value + repeated(' ', (width - value.len()) as nat)
    }
}

/// The cell at a place of a row, which is empty where the row is too short.
pub open spec fn cell(values: Seq<Seq<char>>, widths: Seq<nat>, i: int) -> Seq<char> {
    " "@ + padded(
        if i < values.len() {
            values[i]
        } else {
            Seq::empty()
        },
        widths[i],
    ) + " "@
}

/// A row of cells of the given widths.
pub open spec fn row_of(values: Seq<Seq<char>>, widths: Seq<nat>) -> Seq<char> {
    edged(Seq::new(widths.len(), |i: int| cell(values, widths, i)), "|"@)
}

fn push_repeated(out: &mut String, c: char, n: usize)
    ensures
        final(out)@ == old(out)@ + repeated(c, n as nat),
{
    let ghost start = out@;
    let mut i: usize = 0;
    assert(start + repeated(c, 0) =~= start);
    while i < n
        invariant
            i <= n,
            out@ == start + repeated(c, i as nat),
        decreases n - i,
    {
        out.push(c);
        assert(out@ =~= start + repeated(c, (i + 1) as nat));
        i = i + 1;
    }
}

proof fn lemma_joined_step(parts: Seq<Seq<char>>, i: int, edge: Seq<char>)
    requires
        0 <= i < parts.len(),
    ensures
        joined(parts.take(i + 1), edge) == (if i == 0 {
            parts[0]
        } else {
            joined(parts.take(i), edge) + edge + parts[i]
        }),
{
    assert(parts.take(i + 1).drop_last() =~= parts.take(i));
}

/// The line above and below rows of cells of the widths.
pub fn table_border(widths: &[usize]) -> (r: String)
    ensures
        r@ == border_of(widths_view(widths@)),
{
    let ghost parts = widths_view(widths@).map_values(|w: nat| repeated('-', w + 2));
    let mut out = "+".to_owned();
    let mut i: usize = 0;
    assert(parts.take(0) =~= Seq::empty());
    assert(out@ =~= "+"@ + joined(parts.take(0), "+"@));
    while i < widths.len()
        invariant
            i <= widths@.len(),
            parts == widths_view(widths@).map_values(|w: nat| repeated('-', w + 2)),
            out@ == "+"@ + joined(parts.take(i as int), "+"@),
        decreases widths@.len() - i,
    {
        let ghost before = out@;
        proof {
            lemma_joined_step(parts, i as int, "+"@);
        }
        if i > 0 {
            out.append("+");
        }
        push_repeated(&mut out, '-', widths[i]);
        out.append("--");
        proof {
            reveal_strlit("--");
            let w = widths@[i as int] as nat;
            assert(repeated('-', w) + "--"@ =~= repeated('-', w + 2));
            assert(parts[i as int] == repeated('-', w + 2));
            if i > 0 {
                assert(out@ =~= before + "+"@ + parts[i as int]);
            } else {
                assert(out@ =~= before + parts[i as int]);
                assert(before =~= "+"@);
            }
            assert(out@ =~= "+"@ + joined(parts.take(i + 1), "+"@));
        }
        i = i + 1;
    }
    assert(parts.take(i as int) =~= parts);
    out.append("+");
    out
}

/// The row of cells of the widths.
pub fn table_row(values: &[String], widths: &[usize]) -> (r: String)
    ensures
        r@ == row_of(text::texts(values@), widths_view(widths@)),
{
    let ghost cells = Seq::new(
        widths_view(widths@).len(),
        |i: int| cell(text::texts(values@), widths_view(widths@), i),
    );
    let mut out = "|".to_owned();
    let mut i: usize = 0;
    assert(cells.take(0) =~= Seq::empty());
    assert(out@ =~= "|"@ + joined(cells.take(0), "|"@));
    while i < widths.len()
        invariant
            i <= widths@.len(),
            cells == Seq::new(
                widths_view(widths@).len(),
                |i: int| cell(text::texts(values@), widths_view(widths@), i),
            ),
            out@ == "|"@ + joined(cells.take(i as int), "|"@),
        decreases widths@.len() - i,
    {
        let ghost before = out@;
        proof {
            lemma_joined_step(cells, i as int, "|"@);
        }
        if i > 0 {
            out.append("|");
        }
        out.append(" ");
        let ghost opened = out@;
        let ghost value = if i < values@.len() {
            values@[i as int]@
        } else {
            Seq::empty()
        };
        let width: usize = widths[i];
        let mut filled: usize = 0;
        if i < values.len() {
            out.append(values[i].as_str());
            filled = text::chars_of(values[i].as_str()).len();
        }
        assert(out@ =~= opened + value);
        if filled < width {
            push_repeated(&mut out, ' ', width - filled);
        }
        assert(out@ =~= opened + padded(value, width as nat));
        out.append(" ");
        proof {
            assert(cells[i as int] == " "@ + padded(value, width as nat) + " "@);
            if i > 0 {
                assert(out@ =~= before + "|"@ + cells[i as int]);
            } else {
                assert(out@ =~= before + cells[i as int]);
                assert(before =~= "|"@);
            }
            assert(out@ =~= "|"@ + joined(cells.take(i + 1), "|"@));
        }
        i = i + 1;
    }
    assert(cells.take(i as int) =~= cells);
    out.append("|");
    out
}

/// The lines of a table: the headers and the rows, between borders.
pub open spec fn lines_of(headers: Seq<Seq<char>>, rows: Seq<Seq<Seq<char>>>) -> Seq<Seq<char>> {
    let widths = widths_of(headers, rows);
    let border = border_of(widths);
    seq![border, row_of(headers, widths), border] + rows.map_values(
        |row: Seq<Seq<char>>| row_of(row, widths),
    ) + seq![border]
}

/// The lines of the table.
pub fn table_lines(headers: &[&str], rows: &[Vec<String>]) -> (r: Vec<String>)
    ensures
        text::texts(r@) == lines_of(strs_view(headers@), diff::text_lists(rows@)),
{
    let ghost heads = strs_view(headers@);
    let ghost lists = diff::text_lists(rows@);
    let widths = table_widths(headers, rows);
    let ghost sizes = widths_view(widths@);
    let ghost shown = lists.map_values(|row: Seq<Seq<char>>| row_of(row, sizes));
    let border = table_border(widths.as_slice());
    let mut titles: Vec<String> = Vec::new();
    let mut i: usize = 0;
    while i < headers.len()
        invariant
            i <= headers@.len(),
            heads == strs_view(headers@),
            text::texts(titles@) == heads.take(i as int),
        decreases headers@.len() - i,
    {
        let ghost before = titles@;
        titles.push(headers[i].to_owned());
        assert(text::texts(titles@) =~= text::texts(before).push(heads[i as int]));
        assert(heads.take(i + 1) =~= heads.take(i as int).push(heads[i as int]));
        i = i + 1;
    }
    assert(heads.take(i as int) =~= heads);
    let mut lines: Vec<String> = Vec::new();
    lines.push(border.clone());
    lines.push(table_row(titles.as_slice(), widths.as_slice()));
    lines.push(border.clone());
    let ghost top = seq![border_of(sizes), row_of(heads, sizes), border_of(sizes)];
    assert(text::texts(lines@) =~= top + shown.take(0));
    let mut j: usize = 0;
    while j < rows.len()
        invariant
            j <= rows@.len(),
            lists == diff::text_lists(rows@),
            sizes == widths_view(widths@),
            shown == lists.map_values(|row: Seq<Seq<char>>| row_of(row, sizes)),
            text::texts(lines@) == top + shown.take(j as int),
        decreases rows@.len() - j,
    {
        let ghost before = lines@;
        let line = table_row(rows[j].as_slice(), widths.as_slice());
        assert(line@ == shown[j as int]);
        lines.push(line);
        assert(text::texts(lines@) =~= text::texts(before).push(line@));
        assert(top + shown.take(j + 1) =~= (top + shown.take(j as int)).push(line@));
        j = j + 1;
    }
    assert(shown.take(j as int) =~= shown);
    let ghost before = lines@;
    lines.push(border);
    assert(text::texts(lines@) =~= text::texts(before).push(border_of(sizes)));
    assert(text::texts(lines@) =~= top + shown + seq![border_of(sizes)]);
    lines
}

proof fn lemma_bytes_cover_chars(s: Seq<char>)
    ensures
        byte_len(s) >= s.len(),
    decreases s.len(),
{
    if s.len() > 0 {
        lemma_bytes_cover_chars(s.drop_first());
    }
}

proof fn lemma_cells_fit(
    headers: Seq<Seq<char>>,
    rows: Seq<Seq<Seq<char>>>,
    n: int,
    column: int,
)
    requires
        0 <= n <= rows.len(),
        0 <= column < headers.len(),
    ensures
        column_width(headers[column], rows.take(n), column) >= headers[column].len(),
        forall|i: int|
            0 <= i < n && column < rows[i].len() ==> column_width(
                headers[column],
                rows.take(n),
                column,
            ) >= (#[trigger] rows[i])[column].len(),
    decreases n,
{
    lemma_bytes_cover_chars(headers[column]);
    if n > 0 {
        lemma_cells_fit(headers, rows, n - 1, column);
        assert(rows.take(n).drop_last() =~= rows.take(n - 1));
        if column < rows[n - 1].len() {
            lemma_bytes_cover_chars(rows[n - 1][column]);
        }
    }
}

proof fn lemma_joined_len(a: Seq<Seq<char>>, b: Seq<Seq<char>>, x: Seq<char>, y: Seq<char>)
    requires
        a.len() == b.len(),
        x.len() == y.len(),
        forall|i: int| 0 <= i < a.len() ==> (#[trigger] a[i]).len() == b[i].len(),
    ensures
        joined(a, x).len() == joined(b, y).len(),
    decreases a.len(),
{
    if a.len() > 1 {
        lemma_joined_len(a.drop_last(), b.drop_last(), x, y);
    }
}

proof fn lemma_row_len(values: Seq<Seq<char>>, widths: Seq<nat>)
    requires
        forall|i: int|
            0 <= i < widths.len() && i < values.len() ==> (#[trigger] values[i]).len() <= widths[i],
    ensures
        row_of(values, widths).len() == border_of(widths).len(),
{
    let cells = Seq::new(widths.len(), |i: int| cell(values, widths, i));
    let dashes = widths.map_values(|w: nat| repeated('-', w + 2));
    reveal_strlit(" ");
    reveal_strlit("|");
    reveal_strlit("+");
    assert forall|i: int| 0 <= i < cells.len() implies (#[trigger] cells[i]).len()
        == dashes[i].len() by {
        assert(dashes[i].len() == widths[i] + 2);
        if i < values.len() {
            assert(values[i].len() <= widths[i]);
        }
    }
    lemma_joined_len(cells, dashes, "|"@, "+"@);
}

/// All lines of a table are equally long.
pub proof fn law_table_lines_are_equally_long(
    headers: Seq<Seq<char>>,
    rows: Seq<Seq<Seq<char>>>,
    i: int,
)
    requires
        0 <= i < lines_of(headers, rows).len(),
    ensures
        lines_of(headers, rows)[i].len() == lines_of(headers, rows)[0].len(),
{
    let widths = widths_of(headers, rows);
    assert(rows.take(rows.len() as int) =~= rows);
    assert forall|c: int| 0 <= c < headers.len() implies (#[trigger] headers[c]).len()
        <= widths[c] by {
        lemma_cells_fit(headers, rows, rows.len() as int, c);
    }
    lemma_row_len(headers, widths);
    if 3 <= i < 3 + rows.len() {
        let row = rows[i - 3];
        assert forall|c: int| 0 <= c < widths.len() && c < row.len() implies (
        #[trigger] row[c]).len() <= widths[c] by {
            lemma_cells_fit(headers, rows, rows.len() as int, c);
            assert(rows[i - 3][c].len() <= column_width(headers[c], rows, c));
        }
        lemma_row_len(row, widths);
        assert(lines_of(headers, rows)[i] == row_of(row, widths));
    }
}

/// The rows that show how much is managed.
pub open spec fn status_rows_of(dns: DnsSummary, npm: NpmSummary) -> Seq<Seq<Seq<char>>> {
    seq![
        seq![
            "Cloudflare"@,
            "DNS records"@,
            text::decimal(dns.managed as nat),
            text::decimal(dns.unmanaged as nat),
        ],
        seq![
            "NPM"@,
            "Proxy hosts"@,
            text::decimal(npm.proxy_managed as nat),
            text::decimal(npm.proxy_unmanaged as nat),
        ],
        seq![
            "NPM"@,
            "SSL certificates"@,
            text::decimal(npm.ssl_managed as nat),
            text::decimal(npm.ssl_unmanaged as nat),
        ],
    ]
}

fn status_row(provider: &str, resource: &str, managed: usize, unmanaged: usize) -> (r: Vec<String>)
    ensures
        text::texts(r@) == seq![
            provider@,
            resource@,
            text::decimal(managed as nat),
            text::decimal(unmanaged as nat),
        ],
{
    let mut row: Vec<String> = Vec::new();
    row.push(provider.to_owned());
    row.push(resource.to_owned());
    row.push(text::to_decimal(managed as u128));
    row.push(text::to_decimal(unmanaged as u128));
    assert(text::texts(row@) =~= seq![
        provider@,
        resource@,
        text::decimal(managed as nat),
        text::decimal(unmanaged as nat),
    ]);
    row
}

/// The rows that show how much is managed.
pub fn status_rows(dns: &DnsSummary, npm: &NpmSummary) -> (r: Vec<Vec<String>>)
    ensures
        diff::text_lists(r@) == status_rows_of(*dns, *npm),
{
    let mut rows: Vec<Vec<String>> = Vec::new();
    rows.push(status_row("Cloudflare", "DNS records", dns.managed, dns.unmanaged));
    rows.push(status_row("NPM", "Proxy hosts", npm.proxy_managed, npm.proxy_unmanaged));
    rows.push(status_row("NPM", "SSL certificates", npm.ssl_managed, npm.ssl_unmanaged));
    assert(diff::text_lists(rows@) =~= status_rows_of(*dns, *npm));
    rows
}

/// How a text stands out.
#[derive(Debug, Clone, Copy, PartialEq, Eq, Structural)]
pub enum Color {
    Bold,
    Cyan,
    Dim,
    Green,
    Red,
    Yellow,
}

impl Color {
    /// The terminal's code for it.
    pub open spec fn code(self) -> Seq<char> {
        match self {
            Color::Bold => "1"@,
            Color::Cyan => "36;1"@,
            Color::Dim => "2"@,
            Color::Green => "32;1"@,
            Color::Red => "31;1"@,
            Color::Yellow => "33;1"@,
        }
    }

    fn as_code(&self) -> (r: &'static str)
        ensures
            r@ == self.code(),
    {
        match self {
            Color::Bold => "1",
            Color::Cyan => "36;1",
            Color::Dim => "2",
            Color::Green => "32;1",
            Color::Red => "31;1",
            Color::Yellow => "33;1",
        }
    }
}

/// The text as the terminal shows it standing out.
pub fn paint(value: &str, color: Color) -> (r: String)
    ensures
        r@ == "\x1b["@ + color.code() + "m"@ + value@ + "\x1b[0m"@,
{
    let mut out = text::join3("\x1b[", color.as_code(), "m");
    out.append(value);
    out.append("\x1b[0m");
    out
}

/// A line with a label and a number that stands out.
pub fn labelled(label: &str, value: usize) -> (r: String)
    ensures
        r@ == "  "@ + padded(label@, 28) + " "@ + ("\x1b["@ + Color::Bold.code() + "m"@
            + text::decimal(value as nat) + "\x1b[0m"@),
{
    let mut out = text::join2("  ", label);
    let filled: usize = text::chars_of(label).len();
    if filled < 28 {
        push_repeated(&mut out, ' ', 28 - filled);
    }
    assert(out@ =~= "  "@ + padded(label@, 28));
    out.append(" ");
    out.append(paint(text::to_decimal(value as u128).as_str(), Color::Bold).as_str());
    out
}

/// The place in a row at which the value of a column starts.
pub open spec fn column_start(widths: Seq<nat>, column: int) -> int
    decreases column,
{
    if column <= 0 {
        2
    } else {
        column_start(widths, column - 1) + widths[column - 1] + 3
    }
}

/// Each value of a row starts at the place of its column, and spaces fill it up
/// to the width of the column. Columns without a value are empty.
pub proof fn law_value_stands_in_its_column(
    values: Seq<Seq<char>>,
    widths: Seq<nat>,
    column: int,
)
    requires
        0 <= column < widths.len(),
        forall|i: int|
            0 <= i < widths.len() && i < values.len() ==> (#[trigger] values[i]).len() <= widths[i],
    ensures
        ({
            let row = row_of(values, widths);
            let start = column_start(widths, column);
            let value = if column < values.len() {
                values[column]
            } else {
                Seq::empty()
            };
            &&& start + widths[column] < row.len()
            &&& forall|k: int|
                0 <= k < widths[column] ==> #[trigger] row[start + k] == if k < value.len() {
                    value[k]
                } else {
                    ' '
                }
        }),
{
    let cells = Seq::new(widths.len(), |i: int| cell(values, widths, i));
    reveal_strlit(" ");
    reveal_strlit("|");
    assert forall|i: int| 0 <= i < cells.len() implies (#[trigger] cells[i]).len() == widths[i]
        + 2 by {
        if i < values.len() {
            assert(values[i].len() <= widths[i]);
        }
    }
    lemma_joined_to(cells, widths, column);
    lemma_joined_starts(cells, "|"@, column + 1);
    let start = column_start(widths, column);
    let all = joined(cells, "|"@);
    let front = joined(cells.take(column + 1), "|"@);
    let row = row_of(values, widths);
    let value = if column < values.len() {
        values[column]
    } else {
        Seq::empty()
    };
    if column < values.len() {
        assert(values[column].len() <= widths[column]);
    }
    assert(cells[column] == " "@ + padded(value, widths[column]) + " "@);
    assert forall|k: int| 0 <= k < widths[column] implies #[trigger] row[start + k] == if k
        < value.len() {
        value[k]
    } else {
        ' '
    } by {
        assert(row[start + k] == all[start + k - 1]);
        assert(all[start + k - 1] == front[start + k - 1]);
        assert(front[start + k - 1] == cells[column][k + 1]);
    }
}

proof fn lemma_joined_to(cells: Seq<Seq<char>>, widths: Seq<nat>, column: int)
    requires
        0 <= column < cells.len(),
        cells.len() == widths.len(),
        forall|i: int| 0 <= i < cells.len() ==> (#[trigger] cells[i]).len() == widths[i] + 2,
    ensures
        joined(cells.take(column + 1), "|"@).len() == column_start(widths, column) + widths[column],
        forall|k: int|
            0 <= k < cells[column].len() ==> #[trigger] cells[column][k] == joined(
                cells.take(column + 1),
                "|"@,
            )[column_start(widths, column) - 2 + k],
    decreases column,
{
    reveal_strlit("|");
    lemma_joined_step(cells, column, "|"@);
    assert(cells[column].len() == widths[column] + 2);
    if column > 0 {
        lemma_joined_to(cells, widths, column - 1);
    }
}

proof fn lemma_joined_starts(parts: Seq<Seq<char>>, edge: Seq<char>, n: int)
    requires
        1 <= n <= parts.len(),
    ensures
        joined(parts.take(n), edge).len() <= joined(parts, edge).len(),
        forall|k: int|
            0 <= k < joined(parts.take(n), edge).len() ==> #[trigger] joined(parts, edge)[k]
                == joined(parts.take(n), edge)[k],
    decreases parts.len() - n,
{
    if n == parts.len() {
        assert(parts.take(n) =~= parts);
    } else {
        lemma_joined_starts(parts, edge, n + 1);
        lemma_joined_step(parts, n, edge);
    }
}

/// The width of a column is the number of bytes of its header or of one of its
/// cells, and none of them takes more.
pub proof fn law_width_is_that_of_the_widest_cell(
    header: Seq<char>,
    rows: Seq<Seq<Seq<char>>>,
    column: int,
)
    ensures
        column_width(header, rows, column) >= byte_len(header),
        forall|i: int|
            0 <= i < rows.len() && column < (#[trigger] rows[i]).len() ==> column_width(
                header,
                rows,
                column,
            ) >= byte_len(rows[i][column]),
        column_width(header, rows, column) == byte_len(header) || exists|i: int|
            0 <= i < rows.len() && column < (#[trigger] rows[i]).len() && column_width(
                header,
                rows,
                column,
            ) == byte_len(rows[i][column]),
    decreases rows.len(),
{
    if rows.len() > 0 {
        let before = rows.drop_last();
        law_width_is_that_of_the_widest_cell(header, before, column);
        assert forall|i: int|
            0 <= i < rows.len() && column < (#[trigger] rows[i]).len() implies column_width(
            header,
            rows,
            column,
        ) >= byte_len(rows[i][column]) by {
            if i < before.len() {
                assert(before[i] == rows[i]);
            }
        }
        let width = column_width(header, before, column);
        if column_width(header, rows, column) == width && width != byte_len(header) {
            let i = choose|i: int|
                0 <= i < before.len() && column < (#[trigger] before[i]).len() && width
                    == byte_len(before[i][column]);
            assert(rows[i] == before[i]);
        } else if column_width(header, rows, column) != width {
            assert(column < rows[rows.len() - 1].len());
        }
    }
}

/// A table is the headers between two borders, then one line for each row, in
/// order, and a border at the end.
pub proof fn law_table_shows_every_row(
    headers: Seq<Seq<char>>,
    rows: Seq<Seq<Seq<char>>>,
    i: int,
)
    requires
        0 <= i < rows.len(),
    ensures
        ({
            let lines = lines_of(headers, rows);
            let widths = widths_of(headers, rows);
            &&& lines.len() == rows.len() + 4
            &&& lines[0] == border_of(widths)
            &&& lines[1] == row_of(headers, widths)
            &&& lines[2] == lines[0]
            &&& lines[3 + i] == row_of(rows[i], widths)
            &&& lines.last() == lines[0]
        }),
{
}

/// A border is made of dashes with a plus sign at each end of a column.
pub proof fn law_border_marks_the_columns(widths: Seq<nat>, k: int)
    requires
        widths.len() > 0,
        0 <= k < border_of(widths).len(),
    ensures
        border_of(widths)[k] == '+' || border_of(widths)[k] == '-',
        border_of(widths)[0] == '+',
        border_of(widths).last() == '+',
{
    reveal_strlit("+");
    let parts = widths.map_values(|w: nat| repeated('-', w + 2));
    assert forall|i: int, j: int|
        0 <= i < parts.len() && 0 <= j < parts[i].len() implies #[trigger] parts[i][j] == '-' by {}
    lemma_joined_chars(parts);
}

proof fn lemma_joined_chars(parts: Seq<Seq<char>>)
    requires
        forall|i: int, j: int|
            0 <= i < parts.len() && 0 <= j < parts[i].len() ==> #[trigger] parts[i][j] == '-',
    ensures
        forall|k: int|
            0 <= k < joined(parts, "+"@).len() ==> #[trigger] joined(parts, "+"@)[k] == '+'
                || joined(parts, "+"@)[k] == '-',
    decreases parts.len(),
{
    reveal_strlit("+");
    if parts.len() == 1 {
        assert forall|k: int| 0 <= k < joined(parts, "+"@).len() implies #[trigger] joined(
            parts,
            "+"@,
        )[k] == '-' by {
            assert(parts[0][k] == '-');
        }
    } else if parts.len() > 1 {
        let before = parts.drop_last();
        assert forall|i: int, j: int|
            0 <= i < before.len() && 0 <= j < before[i].len() implies #[trigger] before[i][j]
            == '-' by {
            assert(parts[i][j] == '-');
        }
        lemma_joined_chars(before);
        let front = joined(before, "+"@);
        assert forall|k: int| 0 <= k < joined(parts, "+"@).len() implies #[trigger] joined(
            parts,
            "+"@,
        )[k] == '+' || joined(parts, "+"@)[k] == '-' by {
            if k > front.len() {
                assert(parts[parts.len() - 1][k - front.len() - 1] == '-');
            }
        }
    }
}

/// The status shows the records, the hosts and the certificates, each with how
/// many are managed and then how many are not.
pub proof fn law_status_shows_the_counts(dns: DnsSummary, npm: NpmSummary)
    ensures
        ({
            let rows = status_rows_of(dns, npm);
            &&& rows.len() == 3
            &&& rows[0][0] == "Cloudflare"@ && rows[0][1] == "DNS records"@
            &&& rows[0][2] == text::decimal(dns.managed as nat)
            &&& rows[0][3] == text::decimal(dns.unmanaged as nat)
            &&& rows[1][0] == "NPM"@ && rows[1][1] == "Proxy hosts"@
            &&& rows[1][2] == text::decimal(npm.proxy_managed as nat)
            &&& rows[1][3] == text::decimal(npm.proxy_unmanaged as nat)
            &&& rows[2][0] == "NPM"@ && rows[2][1] == "SSL certificates"@
            &&& rows[2][2] == text::decimal(npm.ssl_managed as nat)
            &&& rows[2][3] == text::decimal(npm.ssl_unmanaged as nat)
        }),
{
}

/// A character takes one to four bytes, and a text takes as many as its characters
/// together.
pub proof fn law_characters_take_one_to_four_bytes(c: char, rest: Seq<char>)
    ensures
        byte_len(Seq::empty()) == 0,
        byte_len(seq![c] + rest) == byte_len(rest) + if (c as u32) < 0x80 {
            1nat
        } else if (c as u32) < 0x800 {
            2nat
        } else if (c as u32) < 0x10000 {
            3nat
        } else {
            4nat
        },
{
    assert((seq![c] + rest).drop_first() =~= rest);
    assert((seq![c] + rest)[0] == c);
}

} // verus!
