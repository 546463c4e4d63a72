//! Tables.
//!
//! A table either takes its column widths from what is in it, or has them
//! fixed so that rows can be shown as they arrive. In the latter a cell that
//! is too long is shown in full and shifts the rest of its row: cutting off
//! routing data for the sake of alignment would be the wrong trade.

use crate::text::{
    chars_of, end_of, is_white, occurs_at, occurs_in, string_between, string_views, trimmed_end,
};
use vstd::prelude::*;
use vstd::string::{StrSliceExecFns, StringExecFns};

verus! {

/// Which side of its column a cell stands on.
#[derive(Clone, Copy, Debug, PartialEq, Eq, Structural)]
pub enum Align {
    Left,
    Right,
}

/// A column.
#[derive(Clone, Copy, Debug)]
pub struct Col {
    pub title: &'static str,
    /// The least width, or the width where widths are fixed.
    pub width: usize,
    pub align: Align,
}

/// What a [`Col`] holds.
pub ghost struct ColView {
    pub title: Seq<char>,
    pub width: nat,
    pub align: Align,
}

impl View for Col {
    type V = ColView;

    open spec fn view(&self) -> ColView {
        ColView { title: self.title@, width: self.width as nat, align: self.align }
    }
}

/// What some columns hold.
pub open spec fn col_views(cols: Seq<Col>) -> Seq<ColView> {
    cols.map_values(|col: Col| col@)
}

/// A column whose cells stand on the left.
pub open spec fn left_col(title: Seq<char>, width: nat) -> ColView {
    ColView { title, width, align: Align::Left }
}

/// A column whose cells stand on the right.
pub open spec fn right_col(title: Seq<char>, width: nat) -> ColView {
    ColView { title, width, align: Align::Right }
}

/// A column whose cells stand on the left.
pub fn left(title: &'static str, width: usize) -> (r: Col)
    ensures
        r@ == left_col(title@, width as nat),
{
    Col { title, width, align: Align::Left }
}

/// A column whose cells stand on the right.
pub fn right(title: &'static str, width: usize) -> (r: Col)
    ensures
        r@ == right_col(title@, width as nat),
{
    Col { title, width, align: Align::Right }
}

/// Spaces.
pub open spec fn spaces(n: nat) -> Seq<char> {
    Seq::new(n, |i: int| ' ')
}

/// The spaces that fill a cell up to a width.
pub open spec fn filling(cell: Seq<char>, width: nat) -> Seq<char> {
    if cell.len() < width {
        spaces((width - cell.len()) as nat)
    } else {
        seq![]
    }
}

/// A cell in its column. The last one of a row is not filled up behind.
pub open spec fn cell_text(cell: Seq<char>, align: Align, width: nat, last: bool) -> Seq<char> {
    if align == Align::Right {
        filling(cell, width) + cell
    } else if last {
        cell
    } else {
        cell + filling(cell, width)
    }
}

/// The first `n` cells of a row, with a space between them.
pub open spec fn cells_text(
    cols: Seq<ColView>,
    widths: Seq<nat>,
    cells: Seq<Seq<char>>,
    n: nat,
) -> Seq<char>
    decreases n,
{
    if n == 0 {
        seq![]
    } else {
        let i = n - 1;
        cells_text(cols, widths, cells, i as nat) + (if i > 0 {
            " "@
        } else {
            seq![]
        }) + cell_text(cells[i], cols[i].align, widths[i], n == cells.len())
    }
}

/// A row as a line without white space at its end. Cells without a column are
/// left out.
pub open spec fn row_line(cols: Seq<ColView>, widths: Seq<nat>, cells: Seq<Seq<char>>) -> Seq<
    char,
> {
    let n = if cells.len() < cols.len() {
        cells.len()
    } else {
        cols.len()
    };
    trimmed_end(cells_text(cols, widths, cells, n)) + "\n"@
}

/// The titles of columns.
pub open spec fn titles(cols: Seq<ColView>) -> Seq<Seq<char>> {
    cols.map_values(|col: ColView| col.title)
}

/// The header of a table.
pub open spec fn header_line(cols: Seq<ColView>, widths: Seq<nat>) -> Seq<char> {
    row_line(cols, widths, titles(cols))
}

/// The widths that columns are given.
pub open spec fn fixed_widths(cols: Seq<ColView>) -> Seq<nat> {
    cols.map_values(|col: ColView| col.width)
}

/// The larger of two numbers.
pub open spec fn larger(a: nat, b: nat) -> nat {
    if a < b {
        b
    } else {
        a
    }
}

/// The width of column `i` that its title and the first `n` rows need.
pub open spec fn needed_width(cols: Seq<ColView>, rows: Seq<Seq<Seq<char>>>, i: int, n: nat) -> nat
    decreases n,
{
    if n == 0 {
        larger(cols[i].width, cols[i].title.len())
    } else {
        let row = rows[n - 1];
        larger(
            needed_width(cols, rows, i, (n - 1) as nat),
            if i < row.len() {
                row[i].len()
            } else {
                0
            },
        )
    }
}

/// The widths that columns need.
pub open spec fn needed_widths(cols: Seq<ColView>, rows: Seq<Seq<Seq<char>>>) -> Seq<nat> {
    Seq::new(cols.len(), |i: int| needed_width(cols, rows, i, rows.len()))
}

/// Rows as lines.
pub open spec fn row_lines(
    cols: Seq<ColView>,
    widths: Seq<nat>,
    rows: Seq<Seq<Seq<char>>>,
) -> Seq<char>
    decreases rows.len(),
{
    if rows.len() == 0 {
        seq![]
    } else {
        row_lines(cols, widths, rows.drop_last()) + row_line(cols, widths, rows.last())
    }
}

/// A table that is shown as a whole.
pub open spec fn fitted(cols: Seq<ColView>, rows: Seq<Seq<Seq<char>>>) -> Seq<char> {
    let widths = needed_widths(cols, rows);
    header_line(cols, widths) + row_lines(cols, widths, rows)
}

/// Numbers that widths stand for.
pub open spec fn width_views(widths: Seq<usize>) -> Seq<nat> {
    widths.map_values(|w: usize| w as nat)
}

fn put_spaces(line: &mut String, n: usize)
    ensures
        final(line)@ == old(line)@ + spaces(n as nat),
{
    let mut i: usize = 0;
    assert(old(line)@ + spaces(0) =~= old(line)@);
    while i < n
        invariant
            i <= n,
            line@ == old(line)@ + spaces(i as nat),
        decreases n - i,
    {
        line.push(' ');
        i += 1;
        assert(line@ =~= old(line)@ + spaces(i as nat));
    }
}

pub(crate) fn put_filling(line: &mut String, len: usize, width: usize, Ghost(cell): Ghost<Seq<char>>)
    requires
        len == cell.len(),
    ensures
        final(line)@ == old(line)@ + filling(cell, width as nat),
{
    if len < width {
        put_spaces(line, width - len);
    }
    assert(line@ =~= old(line)@ + filling(cell, width as nat));
}

/// Writes a row.
fn write_row(out: &mut String, cols: &[Col], widths: &[usize], cells: &[String])
    requires
        widths@.len() == cols@.len(),
    ensures
        final(out)@ == old(out)@ + row_line(
            col_views(cols@),
            width_views(widths@),
            string_views(cells@),
        ),
{
    let ghost columns = col_views(cols@);
    let ghost sizes = width_views(widths@);
    let ghost texts = string_views(cells@);
    let mut line = String::new();
    let mut i: usize = 0;
    assert(line@ =~= cells_text(columns, sizes, texts, 0));
    while i < cells.len() && i < cols.len()
        invariant
            i <= cells@.len(),
            i <= cols@.len(),
            widths@.len() == cols@.len(),
            columns == col_views(cols@),
            sizes == width_views(widths@),
            texts == string_views(cells@),
            line@ == cells_text(columns, sizes, texts, i as nat),
        decreases cells.len() - i,
    {
        let col = cols[i];
        let width: usize = widths[i];
        let text = cells[i].as_str();
        let len: usize = text.unicode_len();
        let ghost before = line@;
        proof {
            assert(columns[i as int] == col@);
            assert(sizes[i as int] == width);
            assert(texts[i as int] == text@);
        }
        if i > 0 {
            line.append(" ");
        }
        let ghost cell = text@;
        if col.align == Align::Right {
            put_filling(&mut line, len, width, Ghost(cell));
            line.append(text);
        } else {
            line.append(text);
            if i + 1 < cells.len() {
                put_filling(&mut line, len, width, Ghost(cell));
            }
        }
        i += 1;
        assert(line@ =~= cells_text(columns, sizes, texts, i as nat));
    }
    let chars = chars_of(line.as_str());
    let end: usize = end_of(&chars);
    let shown = string_between(&chars, 0, end);
    assert(shown@ =~= chars@.take(end as int));
    out.append(shown.as_str());
    out.append("\n");
    assert(out@ =~= old(out)@ + row_line(columns, sizes, texts));
}

/// Writes the header.
fn write_header(out: &mut String, cols: &[Col], widths: &[usize])
    requires
        widths@.len() == cols@.len(),
    ensures
        final(out)@ == old(out)@ + header_line(col_views(cols@), width_views(widths@)),
{
    let mut names: Vec<String> = Vec::new();
    let mut i: usize = 0;
    while i < cols.len()
        invariant
            i <= cols@.len(),
            names@.len() == i,
            forall|k: int| 0 <= k < i ==> (#[trigger] names@[k])@ == cols@[k].title@,
        decreases cols.len() - i,
    {
        names.push(cols[i].title.to_owned());
        i += 1;
    }
    assert(string_views(names@) =~= titles(col_views(cols@)));
    write_row(out, cols, widths, &names);
}

/// The widths that columns are given.
fn given_widths(cols: &[Col]) -> (r: Vec<usize>)
    ensures
        width_views(r@) == fixed_widths(col_views(cols@)),
        r@.len() == cols@.len(),
{
    let mut widths: Vec<usize> = Vec::new();
    let mut i: usize = 0;
    while i < cols.len()
        invariant
            i <= cols@.len(),
            widths@.len() == i,
            forall|k: int| 0 <= k < i ==> #[trigger] widths@[k] == cols@[k].width,
        decreases cols.len() - i,
    {
        widths.push(cols[i].width);
        i += 1;
    }
    assert(width_views(widths@) =~= fixed_widths(col_views(cols@)));
    widths
}

/// What rows of strings hold.
pub open spec fn row_views(rows: Seq<Vec<String>>) -> Seq<Seq<Seq<char>>> {
    rows.map_values(|row: Vec<String>| string_views(row@))
}

/// The width that a column needs.
fn width_needed(cols: &[Col], rows: &[Vec<String>], i: usize) -> (r: usize)
    requires
        i < cols@.len(),
    ensures
        r == needed_width(col_views(cols@), row_views(rows@), i as int, rows@.len()),
{
    let ghost columns = col_views(cols@);
    let ghost lines = row_views(rows@);
    let col = cols[i];
    let title: usize = col.title.unicode_len();
    let mut width: usize = if col.width < title {
        title
    } else {
        col.width
    };
    assert(columns[i as int] == col@);
    let mut k: usize = 0;
    while k < rows.len()
        invariant
            k <= rows@.len(),
            lines == row_views(rows@),
            width == needed_width(columns, lines, i as int, k as nat),
        decreases rows.len() - k,
    {
        let row = &rows[k];
        assert(lines[k as int] == string_views(row@));
        if i < row.len() {
            let len: usize = row[i].as_str().unicode_len();
            assert(string_views(row@)[i as int] == row@[i as int]@);
            if width < len {
                width = len;
            }
        }
        k += 1;
    }
    width
}

/// A table.
#[derive(Debug)]
pub struct Table<'a> {
    pub cols: &'a [Col],
    /// Whether rows are shown as they arrive.
    pub streaming: bool,
    /// Rows that are kept until the table is shown.
    pub rows: Vec<Vec<String>>,
    pub header_written: bool,
    pub out: String,
}

/// What a [`Table`] holds.
pub ghost struct TableView {
    pub cols: Seq<ColView>,
    pub streaming: bool,
    pub rows: Seq<Seq<Seq<char>>>,
    pub header_written: bool,
    pub out: Seq<char>,
}

impl<'a> View for Table<'a> {
    type V = TableView;

    open spec fn view(&self) -> TableView {
        TableView {
            cols: col_views(self.cols@),
            streaming: self.streaming,
            rows: row_views(self.rows@),
            header_written: self.header_written,
            out: self.out@,
        }
    }
}

/// A table without rows.
pub open spec fn empty_table(cols: Seq<ColView>, streaming: bool) -> TableView {
    TableView { cols, streaming, rows: seq![], header_written: false, out: seq![] }
}

/// The table with the header shown, if it shows rows as they arrive.
pub open spec fn with_header(t: TableView) -> TableView {
    if t.header_written {
        t
    } else {
        TableView {
            header_written: true,
            out: t.out + header_line(t.cols, fixed_widths(t.cols)),
            ..t
        }
    }
}

/// The table with one row more.
pub open spec fn with_row(t: TableView, cells: Seq<Seq<char>>) -> TableView {
    if t.streaming {
        let t = with_header(t);
        TableView { out: t.out + row_line(t.cols, fixed_widths(t.cols), cells), ..t }
    } else {
        TableView { rows: t.rows.push(cells), ..t }
    }
}

/// All that is shown of a table. One without rows still has its header.
pub open spec fn table_text(t: TableView) -> Seq<char> {
    if t.streaming {
        with_header(t).out
    } else {
        t.out + fitted(t.cols, t.rows)
    }
}

/// No line of a table ends in white space.
pub proof fn lines_end_without_white_space(
    cols: Seq<ColView>,
    widths: Seq<nat>,
    cells: Seq<Seq<char>>,
)
    ensures
        ({
            let line = row_line(cols, widths, cells);
            &&& line.len() > 0
            &&& line.last() == '\n'
            &&& line.len() > 1 ==> !is_white(line[line.len() - 2])
        }),
{
    reveal_strlit("\n");
    let n = if cells.len() < cols.len() {
        cells.len()
    } else {
        cols.len()
    };
    no_white_end(cells_text(cols, widths, cells, n));
}

proof fn no_white_end(s: Seq<char>)
    ensures
        trimmed_end(s).len() > 0 ==> !is_white(trimmed_end(s).last()),
    decreases s.len(),
{
    if s.len() > 0 && is_white(s.last()) {
        no_white_end(s.drop_last());
    }
}

/// White space at the end of a text is all that is taken off.
proof fn trimmed_end_keeps(s: Seq<char>, k: int)
    requires
        0 <= k < s.len(),
        !is_white(s[k]),
    ensures
        k < trimmed_end(s).len() <= s.len(),
        trimmed_end(s) == s.take(trimmed_end(s).len() as int),
    decreases s.len(),
{
    if is_white(s.last()) {
        trimmed_end_keeps(s.drop_last(), k);
        let n = trimmed_end(s).len() as int;
        assert(s.drop_last().take(n) =~= s.take(n));
    } else {
        assert(s.take(s.len() as int) =~= s);
    }
}

/// A cell stands in the text of the cells, as it is.
proof fn cell_stands_in(
    cols: Seq<ColView>,
    widths: Seq<nat>,
    cells: Seq<Seq<char>>,
    n: nat,
    i: int,
) -> (at: int)
    requires
        0 <= i < n,
    ensures
        occurs_at(cells_text(cols, widths, cells, n), cells[i], at),
    decreases n,
{
    let last = n - 1;
    let before = cells_text(cols, widths, cells, last as nat);
    let gap = if last > 0 {
        " "@
    } else {
        seq![]
    };
    let own = cell_text(cells[last], cols[last].align, widths[last], n == cells.len());
    let all = before + gap + own;
    if i == last {
        let fill = filling(cells[i], widths[i]);
        let at = before.len() + gap.len() + (if cols[i].align == Align::Right {
            fill.len() as int
        } else {
            0
        });
        assert(all.subrange(at, at + cells[i].len()) =~= cells[i]);
        at
    } else {
        let at = cell_stands_in(cols, widths, cells, last as nat, i);
        assert(all.subrange(at, at + cells[i].len()) =~= before.subrange(
            at,
            at + cells[i].len(),
        ));
        at
    }
}

/// However narrow a column is, a cell is never cut: a row shows each of its
/// cells in full, up to white space at its end.
pub proof fn cells_are_never_cut(
    cols: Seq<ColView>,
    widths: Seq<nat>,
    cells: Seq<Seq<char>>,
    i: int,
)
    requires
        0 <= i < cells.len(),
        i < cols.len(),
        cells[i].len() > 0,
        !is_white(cells[i].last()),
    ensures
        occurs_in(row_line(cols, widths, cells), cells[i]),
{
    let n = if cells.len() < cols.len() {
        cells.len()
    } else {
        cols.len()
    };
    let all = cells_text(cols, widths, cells, n);
    let at = cell_stands_in(cols, widths, cells, n, i);
    let end = at + cells[i].len();
    assert(all.subrange(at, end)[cells[i].len() - 1] == cells[i].last());
    trimmed_end_keeps(all, end - 1);
    let line = row_line(cols, widths, cells);
    assert(line.subrange(at, end) =~= all.subrange(at, end));
    assert(occurs_at(line, cells[i], at));
}

/// A table that shows rows as they arrive, after some rows.
pub open spec fn streamed(cols: Seq<ColView>, rows: Seq<Seq<Seq<char>>>) -> TableView
    decreases rows.len(),
{
    if rows.len() == 0 {
        empty_table(cols, true)
    } else {
        with_row(streamed(cols, rows.drop_last()), rows.last())
    }
}

/// Lines, each with its end.
pub open spec fn ended_lines(lines: Seq<Seq<char>>) -> Seq<char>
    decreases lines.len(),
{
    if lines.len() == 0 {
        seq![]
    } else {
        ended_lines(lines.drop_last()) + lines.last() + "\n"@
    }
}

/// A row without the end of its line.
pub open spec fn row_text(cols: Seq<ColView>, cells: Seq<Seq<char>>) -> Seq<char> {
    let n = if cells.len() < cols.len() {
        cells.len()
    } else {
        cols.len()
    };
    trimmed_end(cells_text(cols, fixed_widths(cols), cells, n))
}

/// The titles of a table that shows rows as they arrive, and its rows, each
/// without the end of its line.
pub open spec fn shown_lines(cols: Seq<ColView>, rows: Seq<Seq<Seq<char>>>) -> Seq<Seq<char>> {
    seq![row_text(cols, titles(cols))] + rows.map_values(
        |cells: Seq<Seq<char>>| row_text(cols, cells),
    )
}

/// Where in its row a cell starts.
pub open spec fn cell_place(cols: Seq<ColView>, cells: Seq<Seq<char>>, i: int) -> int {
    let widths = fixed_widths(cols);
    cells_text(cols, widths, cells, i as nat).len() + (if i > 0 {
        1int
    } else {
        0
    }) + (if cols[i].align == Align::Right {
        filling(cells[i], widths[i]).len() as int
    } else {
        0
    })
}

/// Whether cells are such as a row can show on one line: none holds the end of
/// a line, and each has a column.
pub open spec fn one_line(cols: Seq<ColView>, cells: Seq<Seq<char>>) -> bool {
    &&& cells.len() <= cols.len()
    &&& forall|i: int| 0 <= i < cells.len() ==> !(#[trigger] cells[i]).contains('\n')
}

/// Whether a line shows cells: each of them in full, in order, and with nothing
/// but spaces between them, one at least. Of a cell that ends in white space
/// this is said up to that.
pub open spec fn shows_cells(line: Seq<char>, cols: Seq<ColView>, cells: Seq<Seq<char>>) -> bool {
    &&& forall|i: int|
        0 <= i < cells.len() && trimmed_end(#[trigger] cells[i]).len() > 0 ==> occurs_at(
            line,
            trimmed_end(cells[i]),
            cell_place(cols, cells, i),
        )
    &&& forall|i: int|
        0 <= i < cells.len() - 1 ==> (#[trigger] cell_place(cols, cells, i)) + cells[i].len()
            < cell_place(cols, cells, i + 1)
    &&& forall|i: int, p: int|
        0 <= i < cells.len() - 1 && (#[trigger] cell_place(cols, cells, i)) + cells[i].len() <= p
            < cell_place(cols, cells, i + 1) && p < line.len() ==> (#[trigger] line[p]) == ' '
}

proof fn trimmed_end_is_prefix(s: Seq<char>)
    ensures
        trimmed_end(s).len() <= s.len(),
        trimmed_end(s) == s.take(trimmed_end(s).len() as int),
    decreases s.len(),
{
    if s.len() > 0 && is_white(s.last()) {
        trimmed_end_is_prefix(s.drop_last());
        let n = trimmed_end(s).len() as int;
        assert(s.drop_last().take(n) =~= s.take(n));
    } else {
        assert(s.take(s.len() as int) =~= s);
    }
}

/// The cells of a row come one behind the other.
proof fn cells_text_goes_on(
    cols: Seq<ColView>,
    widths: Seq<nat>,
    cells: Seq<Seq<char>>,
    m: nat,
    n: nat,
)
    requires
        m <= n,
    ensures
        cells_text(cols, widths, cells, m).len() <= cells_text(cols, widths, cells, n).len(),
        cells_text(cols, widths, cells, n).take(
            cells_text(cols, widths, cells, m).len() as int,
        ) == cells_text(cols, widths, cells, m),
    decreases n,
{
    let all = cells_text(cols, widths, cells, n);
    let part = cells_text(cols, widths, cells, m);
    if m == n {
        assert(all.take(all.len() as int) =~= all);
    } else {
        let before = cells_text(cols, widths, cells, (n - 1) as nat);
        cells_text_goes_on(cols, widths, cells, m, (n - 1) as nat);
        assert(all.take(part.len() as int) =~= before.take(part.len() as int));
    }
}

proof fn cells_text_is_one_line(
    cols: Seq<ColView>,
    widths: Seq<nat>,
    cells: Seq<Seq<char>>,
    n: nat,
)
    requires
        n <= cells.len(),
        forall|i: int| 0 <= i < n ==> !(#[trigger] cells[i]).contains('\n'),
    ensures
        !cells_text(cols, widths, cells, n).contains('\n'),
    decreases n,
{
    reveal_strlit(" ");
    if n > 0 {
        let before = cells_text(cols, widths, cells, (n - 1) as nat);
        cells_text_is_one_line(cols, widths, cells, (n - 1) as nat);
        let gap = if n - 1 > 0 {
            " "@
        } else {
            seq![]
        };
        let cell = cells[n - 1];
        let fill = filling(cell, widths[n - 1]);
        let own = cell_text(cell, cols[n - 1].align, widths[n - 1], n == cells.len());
        let all = before + gap + own;
        assert forall|k: int| 0 <= k < all.len() implies all[k] != '\n' by {
            let head = before.len() as int;
            let start = head + gap.len();
            if k < head {
                assert(before.contains(before[k]));
            } else if k >= start {
                let own_at = k - start;
                if cols[n - 1].align == Align::Right {
                    if own_at >= fill.len() {
                        assert(cell.contains(cell[own_at - fill.len()]));
                    }
                } else if own_at < cell.len() {
                    assert(cell.contains(cell[own_at]));
                }
            }
        }
    }
}

/// What a row is up to a cell, and the cell.
proof fn cell_comes_next(cols: Seq<ColView>, cells: Seq<Seq<char>>, i: int)
    requires
        0 <= i < cells.len(),
        cells.len() <= cols.len(),
    ensures
        ({
            let widths = fixed_widths(cols);
            let upto = cells_text(cols, widths, cells, i as nat);
            let next = cells_text(cols, widths, cells, (i + 1) as nat);
            let at = cell_place(cols, cells, i);
            &&& upto.len() + (if i > 0 {
                1int
            } else {
                0
            }) <= at
            &&& at + cells[i].len() <= next.len()
            &&& next.subrange(at, at + cells[i].len()) == cells[i]
            &&& forall|p: int| upto.len() <= p < at ==> (#[trigger] next[p]) == ' '
            &&& forall|p: int|
                at + cells[i].len() <= p < next.len() ==> (#[trigger] next[p]) == ' '
        }),
{
    reveal_strlit(" ");
    let widths = fixed_widths(cols);
    let next = cells_text(cols, widths, cells, (i + 1) as nat);
    let at = cell_place(cols, cells, i);
    assert(next.subrange(at, at + cells[i].len()) =~= cells[i]);
}

/// What stands in the first part of a text still does when the text goes on
/// and the white space at its end is taken off.
proof fn part_is_shown(all: Seq<char>, upto: Seq<char>, part: Seq<char>, at: int)
    requires
        upto.len() <= all.len(),
        all.take(upto.len() as int) == upto,
        occurs_at(upto, part, at),
        part.len() > 0,
        !is_white(part.last()),
    ensures
        occurs_at(trimmed_end(all), part, at),
{
    let end = at + part.len();
    assert(all.subrange(at, end) =~= upto.subrange(at, end));
    assert(all[end - 1] == all.subrange(at, end)[part.len() - 1]);
    trimmed_end_keeps(all, end - 1);
    assert(trimmed_end(all).subrange(at, end) =~= all.subrange(at, end));
}

proof fn cell_is_shown(cols: Seq<ColView>, cells: Seq<Seq<char>>, i: int)
    requires
        cells.len() <= cols.len(),
        0 <= i < cells.len(),
        trimmed_end(cells[i]).len() > 0,
    ensures
        occurs_at(row_text(cols, cells), trimmed_end(cells[i]), cell_place(cols, cells, i)),
{
    let widths = fixed_widths(cols);
    let shown = trimmed_end(cells[i]);
    let at = cell_place(cols, cells, i);
    let next = cells_text(cols, widths, cells, (i + 1) as nat);
    cell_comes_next(cols, cells, i);
    trimmed_end_is_prefix(cells[i]);
    no_white_end(cells[i]);
    assert(next.subrange(at, at + shown.len()) =~= next.subrange(at, at + cells[i].len()).take(
        shown.len() as int,
    ));
    cells_text_goes_on(cols, widths, cells, (i + 1) as nat, cells.len());
    part_is_shown(
        cells_text(cols, widths, cells, cells.len()),
        next,
        shown,
        at,
    );
}

proof fn cells_are_apart(cols: Seq<ColView>, cells: Seq<Seq<char>>, i: int, p: int)
    requires
        cells.len() <= cols.len(),
        0 <= i < cells.len() - 1,
    ensures
        cell_place(cols, cells, i) + cells[i].len() < cell_place(cols, cells, i + 1),
        cell_place(cols, cells, i) + cells[i].len() <= p < cell_place(cols, cells, i + 1) && p
            < row_text(cols, cells).len() ==> row_text(cols, cells)[p] == ' ',
{
    let widths = fixed_widths(cols);
    let all = cells_text(cols, widths, cells, cells.len());
    let line = row_text(cols, cells);
    let upto = cells_text(cols, widths, cells, (i + 1) as nat);
    let next = cells_text(cols, widths, cells, (i + 2) as nat);
    trimmed_end_is_prefix(all);
    cell_comes_next(cols, cells, i);
    cell_comes_next(cols, cells, i + 1);
    if cell_place(cols, cells, i) + cells[i].len() <= p < cell_place(cols, cells, i + 1) && p
        < line.len() {
        cells_text_goes_on(cols, widths, cells, (i + 2) as nat, cells.len());
        cells_text_goes_on(cols, widths, cells, (i + 1) as nat, (i + 2) as nat);
        assert(line[p] == all[p]);
        assert(all.take(next.len() as int)[p] == all[p]);
        if p < upto.len() {
            assert(next.take(upto.len() as int)[p] == next[p]);
        }
    }
}

/// A row shows its cells and does not end in white space. It is one line if no
/// cell holds the end of a line.
proof fn row_shows_cells(cols: Seq<ColView>, cells: Seq<Seq<char>>)
    requires
        cells.len() <= cols.len(),
    ensures
        shows_cells(row_text(cols, cells), cols, cells),
        one_line(cols, cells) ==> !row_text(cols, cells).contains('\n'),
        row_text(cols, cells).len() > 0 ==> !is_white(row_text(cols, cells).last()),
{
    let widths = fixed_widths(cols);
    let all = cells_text(cols, widths, cells, cells.len());
    let line = row_text(cols, cells);
    no_white_end(all);
    trimmed_end_is_prefix(all);
    if one_line(cols, cells) {
        cells_text_is_one_line(cols, widths, cells, cells.len());
        if line.contains('\n') {
            let k = choose|k: int| 0 <= k < line.len() && line[k] == '\n';
            assert(all[k] == '\n');
        }
    }
    assert forall|i: int|
        0 <= i < cells.len() && trimmed_end(#[trigger] cells[i]).len() > 0 implies occurs_at(
        line,
        trimmed_end(cells[i]),
        cell_place(cols, cells, i),
    ) by {
        cell_is_shown(cols, cells, i);
    }
    assert forall|i: int| 0 <= i < cells.len() - 1 implies (#[trigger] cell_place(cols, cells, i))
        + cells[i].len() < cell_place(cols, cells, i + 1) by {
        cells_are_apart(cols, cells, i, 0);
    }
    assert forall|i: int, p: int|
        0 <= i < cells.len() - 1 && (#[trigger] cell_place(cols, cells, i)) + cells[i].len() <= p
            < cell_place(cols, cells, i + 1) && p < line.len() implies (#[trigger] line[p])
        == ' ' by {
        cells_are_apart(cols, cells, i, p);
    }
}

proof fn stream_is_lines(cols: Seq<ColView>, rows: Seq<Seq<Seq<char>>>)
    requires
        rows.len() > 0,
    ensures
        streamed(cols, rows).out == ended_lines(shown_lines(cols, rows)),
        streamed(cols, rows).cols == cols,
        streamed(cols, rows).streaming,
        streamed(cols, rows).header_written,
    decreases rows.len(),
{
    let before = rows.drop_last();
    let lines = shown_lines(cols, rows);
    assert(lines.last() == row_text(cols, rows.last()));
    assert(lines.drop_last() =~= shown_lines(cols, before));
    if before.len() > 0 {
        stream_is_lines(cols, before);
    } else {
        let first = shown_lines(cols, before);
        assert(first =~= seq![row_text(cols, titles(cols))]);
        assert(first.drop_last() =~= seq![]);
        assert(ended_lines(first.drop_last()) =~= seq![]);
        assert(ended_lines(first) =~= header_line(cols, fixed_widths(cols)));
        assert(streamed(cols, before) == empty_table(cols, true));
        assert(with_header(empty_table(cols, true)).out =~= ended_lines(first));
    }
    let shown = with_header(streamed(cols, before));
    assert(streamed(cols, rows) == with_row(streamed(cols, before), rows.last()));
    assert(shown.out == ended_lines(lines.drop_last()));
    assert(row_line(cols, fixed_widths(cols), rows.last()) == lines.last() + "\n"@);
    assert(streamed(cols, rows).out =~= ended_lines(lines));
}

/// A table that shows rows as they arrive has shown, as soon as it has a row,
/// its titles once and then a line for each row so far. Every line shows every
/// cell in full and in order, with a space between them at least, however
/// narrow the columns are, and does not end in white space. The titles take one
/// line unless one of them holds the end of a line.
pub proof fn every_row_is_a_line(cols: Seq<ColView>, rows: Seq<Seq<Seq<char>>>)
    requires
        rows.len() > 0,
        forall|k: int| 0 <= k < rows.len() ==> one_line(cols, #[trigger] rows[k]),
    ensures
        ({
            let lines = shown_lines(cols, rows);
            &&& streamed(cols, rows).out == ended_lines(lines)
            &&& lines.len() == rows.len() + 1
            &&& one_line(cols, titles(cols)) ==> !lines[0].contains('\n')
            &&& forall|k: int| 1 <= k < lines.len() ==> !(#[trigger] lines[k]).contains('\n')
            &&& forall|k: int|
                0 <= k < lines.len() && (#[trigger] lines[k]).len() > 0 ==> !is_white(
                    lines[k].last(),
                )
            &&& shows_cells(lines[0], cols, titles(cols))
            &&& forall|k: int|
                0 <= k < rows.len() ==> shows_cells(lines[k + 1], cols, #[trigger] rows[k])
            &&& forall|k: int, i: int|
                0 <= k < rows.len() && 0 <= i < rows[k].len() && (#[trigger] rows[k][i]).len() > 0
                    && !is_white(rows[k][i].last()) ==> occurs_in(lines[k + 1], rows[k][i])
        }),
{
    let lines = shown_lines(cols, rows);
    stream_is_lines(cols, rows);
    row_shows_cells(cols, titles(cols));
    assert forall|k: int| 0 <= k < rows.len() implies shows_cells(
        lines[k + 1],
        cols,
        #[trigger] rows[k],
    ) && !lines[k + 1].contains('\n') && (lines[k + 1].len() > 0 ==> !is_white(
        lines[k + 1].last(),
    )) by {
        row_shows_cells(cols, rows[k]);
        assert(lines[k + 1] == row_text(cols, rows[k]));
    }
    assert forall|k: int, i: int|
        0 <= k < rows.len() && 0 <= i < rows[k].len() && (#[trigger] rows[k][i]).len() > 0
            && !is_white(rows[k][i].last()) implies occurs_in(lines[k + 1], rows[k][i]) by {
        assert(shows_cells(lines[k + 1], cols, rows[k]));
        assert(trimmed_end(rows[k][i]) == rows[k][i]);
        assert(occurs_at(lines[k + 1], rows[k][i], cell_place(cols, rows[k], i)));
    }
    assert forall|k: int| 1 <= k < lines.len() implies !(#[trigger] lines[k]).contains('\n') && (
    lines[k].len() > 0 ==> !is_white(lines[k].last())) by {
        assert(one_line(cols, rows[k - 1]));
        assert(lines[k] == lines[(k - 1) + 1]);
    }
}

/// A table that is shown as a whole has its columns at least as wide as any
/// cell in them.
pub proof fn columns_are_wide_enough(
    cols: Seq<ColView>,
    rows: Seq<Seq<Seq<char>>>,
    row: int,
    col: int,
)
    requires
        0 <= row < rows.len(),
        0 <= col < cols.len(),
        col < rows[row].len(),
    ensures
        rows[row][col].len() <= needed_widths(cols, rows)[col],
{
    width_covers(cols, rows, row, col, rows.len());
}

proof fn width_covers(
    cols: Seq<ColView>,
    rows: Seq<Seq<Seq<char>>>,
    row: int,
    col: int,
    n: nat,
)
    requires
        0 <= row < n <= rows.len(),
        0 <= col < cols.len(),
        col < rows[row].len(),
    ensures
        rows[row][col].len() <= needed_width(cols, rows, col, n),
    decreases n,
{
    if row < n - 1 {
        width_covers(cols, rows, row, col, (n - 1) as nat);
    }
}

impl<'a> Table<'a> {
    /// A table that shows rows as they arrive.
    pub fn fixed(cols: &'a [Col]) -> (r: Table<'a>)
        ensures
            r@ == empty_table(col_views(cols@), true),
    {
        let r = Table {
            cols,
            streaming: true,
            rows: Vec::new(),
            header_written: false,
            out: String::new(),
        };
        assert(r@.rows =~= seq![]);
        assert(r@.out =~= seq![]);
        r
    }

    /// A table that takes its widths from what is in it.
    pub fn fit(cols: &'a [Col]) -> (r: Table<'a>)
        ensures
            r@ == empty_table(col_views(cols@), false),
    {
        let r = Table {
            cols,
            streaming: false,
            rows: Vec::new(),
            header_written: false,
            out: String::new(),
        };
        assert(r@.rows =~= seq![]);
        assert(r@.out =~= seq![]);
        r
    }

    fn show_header(&mut self)
        ensures
            final(self)@ == with_header(old(self)@),
            final(self).cols == old(self).cols,
    {
        if !self.header_written {
            let widths = given_widths(self.cols);
            write_header(&mut self.out, self.cols, &widths);
            self.header_written = true;
        }
    }

    /// Adds a row.
    pub fn row(&mut self, cells: Vec<String>)
        ensures
            final(self)@ == with_row(old(self)@, string_views(cells@)),
            final(self).cols == old(self).cols,
    {
        if self.streaming {
            self.show_header();
            let widths = given_widths(self.cols);
            write_row(&mut self.out, self.cols, &widths, &cells);
        } else {
            let ghost before = self.rows@;
            self.rows.push(cells);
            assert(row_views(self.rows@) =~= row_views(before).push(string_views(cells@)));
        }
    }

    /// Writes a line that is not part of the grid.
    pub fn note(&mut self, text: &str)
        ensures
            final(self)@ == (TableView { out: old(self)@.out + text@ + "\n"@, ..old(self)@ }),
    {
        self.out.append(text);
        self.out.append("\n");
    }

    /// Takes away what has been shown so far.
    pub fn take_output(&mut self) -> (r: String)
        ensures
            r@ == old(self)@.out,
            final(self)@ == (TableView { out: seq![], ..old(self)@ }),
    {
        let r = self.out.clone();
        self.out = String::new();
        assert(self@.out =~= seq![]);
        r
    }

    /// Shows what has not been shown yet.
    pub fn finish(self) -> (r: String)
        ensures
            r@ == table_text(self@),
    {
        let mut t = self;
        if t.streaming {
            t.show_header();
            return t.out;
        }
        let ghost view = t@;
        let mut widths: Vec<usize> = Vec::new();
        let mut i: usize = 0;
        while i < t.cols.len()
            invariant
                i <= t.cols@.len(),
                widths@.len() == i,
                forall|k: int|
                    0 <= k < i ==> #[trigger] widths@[k] == needed_width(
                        col_views(t.cols@),
                        row_views(t.rows@),
                        k,
                        t.rows@.len(),
                    ),
            decreases t.cols.len() - i,
        {
            widths.push(width_needed(t.cols, &t.rows, i));
            i += 1;
        }
        let ghost sizes = needed_widths(view.cols, view.rows);
        assert(width_views(widths@) =~= sizes);
        let Table { cols, rows, out, .. } = t;
        let mut out = out;
        write_header(&mut out, cols, &widths);
        let ghost head = out@;
        let mut k: usize = 0;
        assert(view.rows.take(0) =~= seq![]);
        assert(head + row_lines(view.cols, sizes, view.rows.take(0)) =~= head);
        while k < rows.len()
            invariant
                k <= rows@.len(),
                widths@.len() == cols@.len(),
                width_views(widths@) == sizes,
                col_views(cols@) == view.cols,
                row_views(rows@) == view.rows,
                out@ == head + row_lines(view.cols, sizes, view.rows.take(k as int)),
            decreases rows.len() - k,
        {
            write_row(&mut out, cols, &widths, &rows[k]);
            proof {
                assert(view.rows.take(k + 1).drop_last() =~= view.rows.take(k as int));
                assert(view.rows.take(k + 1).last() == string_views(rows@[k as int]@));
                assert(out@ =~= head + row_lines(view.cols, sizes, view.rows.take(k + 1)));
            }
            k += 1;
        }
        assert(view.rows.take(k as int) =~= view.rows);
        assert(out@ =~= table_text(view));
        out
    }
}

/// Whether the cell of a row under a title is some text.
pub open spec fn shows(
    cols: Seq<ColView>,
    row: Seq<Seq<char>>,
    title: Seq<char>,
    cell: Seq<char>,
) -> bool {
    exists|i: int|
        0 <= i < cols.len() && i < row.len() && (#[trigger] cols[i]).title == title && row[i]
            == cell
}

/// A cell of a right column ends where the column ends, one of a left column
/// starts where it starts; each is filled up to the width of its column, but for
/// the last of a row on the left.
pub proof fn cells_are_aligned(cell: Seq<char>, width: nat, last: bool)
    ensures
        cell_text(cell, Align::Right, width, last).len() == larger(cell.len(), width),
        cell_text(cell, Align::Right, width, last).skip(
            cell_text(cell, Align::Right, width, last).len() - cell.len(),
        ) == cell,
        cell_text(cell, Align::Left, width, false).len() == larger(cell.len(), width),
        cell_text(cell, Align::Left, width, last).take(cell.len() as int) == cell,
        cell_text(cell, Align::Left, width, true) == cell,
        larger(cell.len(), width) >= width && larger(cell.len(), width) >= cell.len(),
{
    let right = cell_text(cell, Align::Right, width, last);
    let left = cell_text(cell, Align::Left, width, last);
    assert(right.skip(right.len() - cell.len()) =~= cell);
    assert(left.take(cell.len() as int) =~= cell);
}

} // verus!
