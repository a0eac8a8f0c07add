use vstd::prelude::*;
use vstd::string::*;
use crate::ansi::{center_to_width, centered, closes_sequences, closing_bar, fills_between_bars, lemma_scan_concat, lemma_scan_plain, scan, spaces, stripped, text_width, vbar, visible_width, visible_width_of};
use crate::paint::esc;
use crate::text::{char_string, string_from_chars};

verus! {

/// `parts` joined by `sep`.
pub open spec fn join(parts: Seq<Seq<char>>, sep: char) -> Seq<char>
    decreases parts.len(),
{
    if parts.len() == 0 {
        Seq::empty()
    } else if parts.len() == 1 {
        parts[0]
    } else {
        join(parts.drop_last(), sep).push(sep) + parts.last()
    }
}

/// `left`, the parts joined by `mid`, then `right`.
pub open spec fn framed(parts: Seq<Seq<char>>, left: char, mid: char, right: char) -> Seq<char> {
    seq![left] + join(parts, mid) + seq![right]
}

/// A horizontal rule `w` columns long.
pub open spec fn rule(w: nat) -> Seq<char> {
    Seq::new(w, |i: int| '─')
}

/// The horizontal rules of the columns.
pub open spec fn rules(widths: Seq<nat>) -> Seq<Seq<char>> {
    Seq::new(widths.len(), |i: int| rule(widths[i]))
}

/// A border line: the rules of the columns between corner and junction
/// characters.
pub open spec fn border(widths: Seq<nat>, left: char, mid: char, right: char) -> Seq<char> {
    framed(rules(widths), left, mid, right)
}

/// The line above the header.
pub open spec fn top_border(widths: Seq<nat>) -> Seq<char> {
    border(widths, '┌', '┬', '┐')
}

/// The line below the header and between data rows.
pub open spec fn separator(widths: Seq<nat>) -> Seq<char> {
    border(widths, '├', '┼', '┤')
}

/// The line below the last row.
pub open spec fn bottom_border(widths: Seq<nat>) -> Seq<char> {
    border(widths, '└', '┴', '┘')
}

/// The cells of a row, each centred in the width of its column.
pub open spec fn centered_cells(cells: Seq<Seq<char>>, widths: Seq<nat>) -> Seq<Seq<char>> {
    Seq::new(cells.len(), |i: int| centered(cells[i], visible_width_of(cells[i]) as nat, widths[i]))
}

/// A row of the table: its centred cells between vertical bars.
pub open spec fn row_line(cells: Seq<Seq<char>>, widths: Seq<nat>) -> Seq<char> {
    framed(centered_cells(cells, widths), '│', '│', '│')
}

/// The data rows with a separator between each two of them.
pub open spec fn body_lines(rows: Seq<Seq<Seq<char>>>, widths: Seq<nat>) -> Seq<Seq<char>>
    decreases rows.len(),
{
    if rows.len() == 0 {
        Seq::empty()
    } else if rows.len() == 1 {
        seq![row_line(rows[0], widths)]
    } else {
        body_lines(rows.drop_last(), widths).push(separator(widths)).push(row_line(rows.last(), widths))
    }
}

/// The lines of a boxed table whose columns are `widths` wide: nothing for
/// no rows; otherwise the top border, the header row, a separator, the
/// data rows with separators between them, and the bottom border.
pub open spec fn table_lines(headers: Seq<Seq<char>>, rows: Seq<Seq<Seq<char>>>, widths: Seq<nat>) -> Seq<Seq<char>> {
    if rows.len() == 0 {
        Seq::empty()
    } else {
        seq![top_border(widths), row_line(headers, widths), separator(widths)]
            + body_lines(rows, widths)
            + seq![bottom_border(widths)]
    }
}

/// The visible width of column `i` over the header and the first `k` rows:
/// the widest of their cells in that column.
pub open spec fn column_width(headers: Seq<Seq<char>>, rows: Seq<Seq<Seq<char>>>, i: int, k: nat) -> nat
    decreases k,
{
    if k == 0 {
        visible_width_of(headers[i]) as nat
    } else {
        let prev = column_width(headers, rows, i, (k - 1) as nat);
        let row = rows[k - 1];
        if i < row.len() && visible_width_of(row[i]) > prev {
            visible_width_of(row[i]) as nat
        } else {
            prev
        }
    }
}

/// The width of each column: its widest cell, header included.
pub open spec fn column_widths(headers: Seq<Seq<char>>, rows: Seq<Seq<Seq<char>>>) -> Seq<nat> {
    Seq::new(headers.len(), |i: int| column_width(headers, rows, i, rows.len()))
}

/// The columns with one space of margin on each side.
pub open spec fn padded_widths(headers: Seq<Seq<char>>, rows: Seq<Seq<Seq<char>>>) -> Seq<nat> {
    Seq::new(headers.len(), |i: int| column_width(headers, rows, i, rows.len()) + 2)
}

/// Every row has at most as many cells as there are headers.
pub open spec fn rows_fit(headers: Seq<Seq<char>>, rows: Seq<Seq<Seq<char>>>) -> bool {
    forall|k: int| 0 <= k < rows.len() ==> #[trigger] rows[k].len() <= headers.len()
}

/// The widths as numbers.
pub open spec fn nats(v: Seq<usize>) -> Seq<nat> {
    Seq::new(v.len(), |i: int| v[i] as nat)
}

/// `left`, the parts separated by `mid`, then `right`.
pub fn frame(parts: &Vec<String>, left: char, mid: char, right: char) -> (r: String)
    ensures
        r@ == framed(parts.deep_view(), left, mid, right),
{
    let ghost p = parts.deep_view();
    let mut acc = char_string(left);
    let mid_s = char_string(mid);
    let n = parts.len();
    let mut i: usize = 0;
    while i < n
        invariant
            p == parts.deep_view(),
            n == parts.len(),
            i <= n,
            mid_s@ == seq![mid],
            acc@ == seq![left] + join(p.take(i as int), mid),
        decreases n - i,
    {
        assert(p.take(i + 1).drop_last() =~= p.take(i as int));
        assert(p.take(i + 1).last() == parts[i as int]@);
        if i > 0 {
            acc.append(mid_s.as_str());
        }
        acc.append(parts[i].as_str());
        proof {
            if i == 0 {
                assert(join(p.take(1), mid) == p.take(1)[0]);
                assert(join(p.take(0), mid) =~= Seq::<char>::empty());
            }
        }
        i = i + 1;
        assert(acc@ =~= seq![left] + join(p.take(i as int), mid));
    }
    assert(p.take(n as int) =~= p);
    let right_s = char_string(right);
    acc.append(right_s.as_str());
    acc
}

/// A horizontal rule `w` columns long.
pub fn rule_string(w: usize) -> (r: String)
    ensures
        r@ == rule(w as nat),
{
    let mut v: Vec<char> = Vec::new();
    let mut i: usize = 0;
    while i < w
        invariant
            i <= w,
            v@ == rule(i as nat),
        decreases w - i,
    {
        v.push('─');
        i = i + 1;
        assert(v@ =~= rule(i as nat));
    }
    string_from_chars(&v)
}

/// A border line over columns of the given widths.
pub fn border_line(widths: &Vec<usize>, left: char, mid: char, right: char) -> (r: String)
    ensures
        r@ == border(nats(widths@), left, mid, right),
{
    let mut parts: Vec<String> = Vec::new();
    let n = widths.len();
    let mut i: usize = 0;
    while i < n
        invariant
            n == widths.len(),
            i <= n,
            parts.len() == i,
            forall|j: int| 0 <= j < i ==> (#[trigger] parts@[j])@ == rule(widths@[j] as nat),
        decreases n - i,
    {
        parts.push(rule_string(widths[i]));
        i = i + 1;
    }
    assert(parts.deep_view() =~= rules(nats(widths@)));
    frame(&parts, left, mid, right)
}


/// Each cell narrower than its column that closes its control sequences
/// is shown exactly as wide as the column.
pub open spec fn cells_fill_columns(cells: Seq<Seq<char>>, widths: Seq<nat>) -> bool {
    forall|i: int|
        0 <= i < cells.len() && closes_sequences(cells[i]) && visible_width_of(cells[i]) < widths[i]
            ==> visible_width_of(#[trigger] centered_cells(cells, widths)[i]) == widths[i]
}

/// A row of cells, each centred in its column's width, between bars.
pub fn row_string(cells: &Vec<String>, widths: &Vec<usize>) -> (r: String)
    requires
        cells.len() <= widths.len(),
    ensures
        r@ == row_line(cells.deep_view(), nats(widths@)),
        cells_fill_columns(cells.deep_view(), nats(widths@)),
        rows_span_line(cells.deep_view(), widths@) && cells_within(cells.deep_view(), nats(widths@))
            ==> visible_width_of(r@) == line_width(nats(widths@)),
{
    let mut parts: Vec<String> = Vec::new();
    let n = cells.len();
    let mut i: usize = 0;
    while i < n
        invariant
            n == cells.len(),
            n <= widths.len(),
            i <= n,
            parts.len() == i,
            forall|j: int| 0 <= j < i ==> (#[trigger] parts@[j])@ == centered(
                cells@[j]@,
                visible_width_of(cells@[j]@) as nat,
                widths@[j] as nat,
            ),
            forall|j: int| 0 <= j < i ==> (closes_sequences(cells@[j]@) && visible_width_of(cells@[j]@) < widths@[j]
                ==> visible_width_of((#[trigger] parts@[j])@) == widths@[j]),
            forall|j: int| 0 <= j < i ==> (closes_sequences(cells@[j]@) && visible_width_of(cells@[j]@) < widths@[j]
                ==> closes_sequences((#[trigger] parts@[j])@) && fills_between_bars(parts@[j]@, widths@[j] as nat)),
        decreases n - i,
    {
        parts.push(center_to_width(cells[i].as_str(), widths[i]));
        i = i + 1;
    }
    proof {
        let w = nats(widths@);
        let c = cells.deep_view();
        if n == widths.len() && n > 0 && cells_within(c, w) && line_width(w) <= usize::MAX {
            let ps = parts.deep_view();
            assert forall|j: int| 0 <= j < ps.len() implies closes_sequences(#[trigger] ps[j])
                && fills_between_bars(ps[j], w[j]) by {
                assert(c[j] == cells@[j]@);
                assert(closes_sequences(c[j]) && visible_width_of(c[j]) < w[j]);
                assert(ps[j] == parts@[j]@);
            }
            lemma_bar_line_width(ps, w);
        }
    }
    assert(parts.deep_view() =~= centered_cells(cells.deep_view(), nats(widths@)));
    assert forall|i: int|
        0 <= i < cells.deep_view().len() && closes_sequences(cells.deep_view()[i])
            && visible_width_of(cells.deep_view()[i]) < nats(widths@)[i]
        implies visible_width_of(#[trigger] centered_cells(cells.deep_view(), nats(widths@))[i]) == nats(widths@)[i] by {
        assert(parts@[i]@ == centered_cells(cells.deep_view(), nats(widths@))[i]);
    }
    frame(&parts, '│', '│', '│')
}

/// A row with a cell for each column, whose table line fits in `usize`.
pub open spec fn rows_span_line(cells: Seq<Seq<char>>, widths: Seq<usize>) -> bool {
    &&& cells.len() == widths.len()
    &&& cells.len() > 0
    &&& line_width(nats(widths)) <= usize::MAX
}

/// The widest cell of each column, header included.
pub fn measure_columns(headers: &Vec<String>, rows: &Vec<Vec<String>>) -> (widths: Vec<usize>)
    requires
        rows_fit(headers.deep_view(), rows.deep_view()),
    ensures
        nats(widths@) == column_widths(headers.deep_view(), rows.deep_view()),
{
    let ghost h = headers.deep_view();
    let ghost rs = rows.deep_view();
    let mut widths: Vec<usize> = Vec::new();
    let m = headers.len();
    let mut i: usize = 0;
    while i < m
        invariant
            m == headers.len(),
            h == headers.deep_view(),
            rs == rows.deep_view(),
            i <= m,
            widths.len() == i,
            forall|j: int| 0 <= j < i ==> #[trigger] widths@[j] == column_width(h, rs, j, 0),
        decreases m - i,
    {
        widths.push(visible_width(headers[i].as_str()));
        i = i + 1;
    }
    let n = rows.len();
    let mut k: usize = 0;
    while k < n
        invariant
            m == headers.len(),
            n == rows.len(),
            h == headers.deep_view(),
            rs == rows.deep_view(),
            rows_fit(h, rs),
            k <= n,
            widths.len() == m,
            forall|j: int| 0 <= j < m ==> #[trigger] widths@[j] == column_width(h, rs, j, k as nat),
        decreases n - k,
    {
        let row = &rows[k];
        assert(rs[k as int] == row.deep_view());
        assert(rs[k as int].len() <= h.len());
        assert(row.len() <= m);
        let rn = row.len();
        let mut i: usize = 0;
        while i < rn
            invariant
                m == headers.len(),
                n == rows.len(),
                h == headers.deep_view(),
                rs == rows.deep_view(),
                k < n,
                rs[k as int] == row.deep_view(),
                rn == row.len(),
                rn <= m,
                i <= rn,
                widths.len() == m,
                forall|j: int| 0 <= j < i ==> #[trigger] widths@[j] == column_width(h, rs, j, (k + 1) as nat),
                forall|j: int| i <= j < m ==> #[trigger] widths@[j] == column_width(h, rs, j, k as nat),
            decreases rn - i,
        {
            let w = visible_width(row[i].as_str());
            assert(rs[k as int][i as int] == row@[i as int]@);
            if w > widths[i] {
                widths.set(i, w);
            }
            i = i + 1;
        }
        assert forall|j: int| 0 <= j < m implies #[trigger] widths@[j] == column_width(h, rs, j, (k + 1) as nat) by {
            if j >= rn {
                assert(!(j < rs[k as int].len()));
            }
        }
        k = k + 1;
    }
    assert(nats(widths@) =~= column_widths(h, rs));
    widths
}


/// The lines of a boxed table with the given column widths.
pub fn table_strings(headers: &Vec<String>, rows: &Vec<Vec<String>>, widths: &Vec<usize>) -> (lines: Vec<String>)
    requires
        headers.len() <= widths.len(),
        rows_fit(headers.deep_view(), rows.deep_view()),
    ensures
        lines.deep_view() == table_lines(headers.deep_view(), rows.deep_view(), nats(widths@)),
        rows.len() > 0 ==> cells_fill_columns(headers.deep_view(), nats(widths@)),
        forall|k: int| 0 <= k < rows.len() ==> cells_fill_columns(#[trigger] rows.deep_view()[k], nats(widths@)),
        rows.len() > 0 && rows_span_line(headers.deep_view(), widths@) && cells_within(headers.deep_view(), nats(widths@))
            ==> visible_width_of(row_line(headers.deep_view(), nats(widths@))) == line_width(nats(widths@)),
        forall|k: int| 0 <= k < rows.len() && rows_span_line(#[trigger] rows.deep_view()[k], widths@)
            && cells_within(rows.deep_view()[k], nats(widths@))
            ==> visible_width_of(row_line(rows.deep_view()[k], nats(widths@))) == line_width(nats(widths@)),
{
    let ghost h = headers.deep_view();
    let ghost rs = rows.deep_view();
    let ghost w = nats(widths@);
    let mut lines: Vec<String> = Vec::new();
    let n = rows.len();
    if n == 0 {
        assert(lines.deep_view() =~= Seq::<Seq<char>>::empty());
        return lines;
    }
    lines.push(border_line(widths, '┌', '┬', '┐'));
    let header_line = row_string(headers, widths);
    lines.push(header_line);
    let ghost header_ok = rows_span_line(h, widths@) && cells_within(h, w)
        ==> visible_width_of(row_line(h, w)) == line_width(w);
    lines.push(border_line(widths, '├', '┼', '┤'));
    let ghost head = seq![top_border(w), row_line(h, w), separator(w)];
    assert(lines.deep_view() =~= head);
    let mut k: usize = 0;
    while k < n
        invariant
            n == rows.len(),
            n > 0,
            h == headers.deep_view(),
            rs == rows.deep_view(),
            w == nats(widths@),
            head == seq![top_border(w), row_line(h, w), separator(w)],
            headers.len() <= widths.len(),
            rows_fit(h, rs),
            k <= n,
            lines.deep_view() == head + body_lines(rs.take(k as int), w),
            cells_fill_columns(h, w),
            forall|j: int| 0 <= j < k ==> cells_fill_columns(#[trigger] rs[j], w),
            header_ok == (rows_span_line(h, widths@) && cells_within(h, w)
                ==> visible_width_of(row_line(h, w)) == line_width(w)),
            header_ok,
            forall|j: int| 0 <= j < k && rows_span_line(#[trigger] rs[j], widths@) && cells_within(rs[j], w)
                ==> visible_width_of(row_line(rs[j], w)) == line_width(w),
        decreases n - k,
    {
        let ghost before = lines.deep_view();
        let ghost pre = rs.take(k as int);
        let ghost next = rs.take(k + 1);
        assert(next.drop_last() =~= pre);
        assert(next.last() == rows@[k as int].deep_view());
        assert(rs[k as int].len() <= headers.len());
        if k > 0 {
            let sep = border_line(widths, '├', '┼', '┤');
            let ghost sv = sep@;
            lines.push(sep);
            assert(lines.deep_view() =~= before.push(sv));
        }
        let ghost mid = lines.deep_view();
        let line = row_string(&rows[k], widths);
        let ghost lv = line@;
        lines.push(line);
        assert(lines.deep_view() =~= mid.push(lv));
        proof {
            if k == 0 {
                assert(pre =~= Seq::<Seq<Seq<char>>>::empty());
                assert(body_lines(pre, w) =~= Seq::<Seq<char>>::empty());
                assert(body_lines(next, w) == seq![row_line(next[0], w)]);
                assert(lines.deep_view() =~= head + body_lines(next, w));
            } else {
                assert(body_lines(next, w) == body_lines(pre, w).push(separator(w)).push(row_line(next.last(), w)));
                assert(lines.deep_view() =~= head + body_lines(next, w));
            }
        }
        k = k + 1;
    }
    assert(rs.take(n as int) =~= rs);
    lines.push(border_line(widths, '└', '┴', '┘'));
    assert(lines.deep_view() =~= head + body_lines(rs, w) + seq![bottom_border(w)]);
    lines
}

/// Every cell of the laid-out table, header or data, that closes its
/// control sequences is shown exactly as wide as its column.
pub open spec fn columns_aligned(headers: Seq<Seq<char>>, rows: Seq<Seq<Seq<char>>>) -> bool {
    let w = padded_widths(headers, rows);
    &&& forall|i: int| 0 <= i < headers.len() && closes_sequences(headers[i])
        ==> visible_width_of(#[trigger] centered_cells(headers, w)[i]) == w[i]
    &&& forall|k: int, i: int| 0 <= k < rows.len() && 0 <= i < rows[k].len() && closes_sequences(rows[k][i])
        ==> visible_width_of(#[trigger] centered_cells(rows[k], w)[i]) == w[i]
}

proof fn lemma_filled_columns_align(headers: Seq<Seq<char>>, rows: Seq<Seq<Seq<char>>>)
    requires
        rows_fit(headers, rows),
        cells_fill_columns(headers, padded_widths(headers, rows)),
        forall|k: int| 0 <= k < rows.len() ==> cells_fill_columns(#[trigger] rows[k], padded_widths(headers, rows)),
    ensures
        columns_aligned(headers, rows),
{
    let w = padded_widths(headers, rows);
    assert forall|i: int| 0 <= i < headers.len() && closes_sequences(headers[i])
        implies visible_width_of(#[trigger] centered_cells(headers, w)[i]) == w[i] by {
        lemma_column_is_widest_cell(headers, rows, i, rows.len());
    }
    assert forall|k: int, i: int| 0 <= k < rows.len() && 0 <= i < rows[k].len() && closes_sequences(rows[k][i])
        implies visible_width_of(#[trigger] centered_cells(rows[k], w)[i]) == w[i] by {
        assert(rows[k].len() <= headers.len());
        lemma_column_is_widest_cell(headers, rows, i, rows.len());
        assert(cells_fill_columns(rows[k], w));
    }
}

/// A table to lay out in full: it has columns, every row has a cell for
/// each of them, and every cell, header or data, closes the control
/// sequences it opens.
pub open spec fn cells_complete(headers: Seq<Seq<char>>, rows: Seq<Seq<Seq<char>>>) -> bool {
    &&& headers.len() > 0
    &&& forall|i: int| 0 <= i < headers.len() ==> closes_sequences(#[trigger] headers[i])
    &&& forall|k: int| 0 <= k < rows.len() ==> (#[trigger] rows[k]).len() == headers.len()
    &&& forall|k: int, i: int| 0 <= k < rows.len() && 0 <= i < rows[k].len() ==> closes_sequences(#[trigger] rows[k][i])
}

/// Every column fits its cells plus a margin of one column on each side
/// within `usize`.
pub open spec fn margins_fit(headers: Seq<Seq<char>>, rows: Seq<Seq<Seq<char>>>) -> bool {
    forall|i: int| 0 <= i < headers.len() ==> #[trigger] column_width(headers, rows, i, rows.len()) + 2 <= usize::MAX
}

/// Lays out a boxed table: each column is as wide as its widest cell plus
/// one space on each side, every cell is centred, and rows are separated by
/// rules. No rows give no lines. `None` where a column's width plus its
/// margin does not fit in `usize`.
pub fn render_table(headers: &Vec<String>, rows: &Vec<Vec<String>>) -> (r: Option<Vec<String>>)
    requires
        rows_fit(headers.deep_view(), rows.deep_view()),
    ensures
        rows.len() == 0 ==> (r matches Some(lines) && lines.len() == 0),
        rows.len() > 0 ==> (r is Some <==> margins_fit(headers.deep_view(), rows.deep_view())),
        r matches Some(lines) ==> lines.deep_view() == table_lines(
            headers.deep_view(),
            rows.deep_view(),
            padded_widths(headers.deep_view(), rows.deep_view()),
        ),
        r is Some && rows.len() > 0 ==> columns_aligned(headers.deep_view(), rows.deep_view()),
        r matches Some(lines) ==> (rows.len() > 0 && cells_complete(headers.deep_view(), rows.deep_view())
            && line_width(padded_widths(headers.deep_view(), rows.deep_view())) <= usize::MAX
            ==> forall|j: int| 0 <= j < lines.len() ==> line_columns(#[trigger] lines.deep_view()[j], j)
                == line_width(padded_widths(headers.deep_view(), rows.deep_view()))),
{
    if rows.len() == 0 {
        let lines: Vec<String> = Vec::new();
        assert(lines.deep_view() =~= Seq::<Seq<char>>::empty());
        return Some(lines);
    }
    let ghost h = headers.deep_view();
    let ghost rs = rows.deep_view();
    let widths = measure_columns(headers, rows);
    let m = widths.len();
    assert(nats(widths@).len() == column_widths(h, rs).len());
    assert(m == h.len());
    let mut padded: Vec<usize> = Vec::new();
    let mut i: usize = 0;
    while i < m
        invariant
            m == widths.len(),
            h == headers.deep_view(),
            rs == rows.deep_view(),
            nats(widths@) == column_widths(h, rs),
            m == h.len(),
            rows.len() > 0,
            i <= m,
            padded.len() == i,
            forall|j: int| 0 <= j < i ==> #[trigger] padded@[j] == column_width(h, rs, j, rs.len()) + 2,
            forall|j: int| 0 <= j < i ==> #[trigger] column_width(h, rs, j, rs.len()) + 2 <= usize::MAX,
        decreases m - i,
    {
        assert(nats(widths@)[i as int] == widths@[i as int] as nat);
        assert(column_widths(h, rs)[i as int] == column_width(h, rs, i as int, rs.len()));
        match widths[i].checked_add(2) {
            Some(p) => {
                padded.push(p);
            },
            None => {
                assert(!(column_width(h, rs, i as int, rs.len()) + 2 <= usize::MAX));
                return None;
            },
        }
        i = i + 1;
    }
    assert(nats(padded@) =~= padded_widths(h, rs));
    let lines = table_strings(headers, rows, &padded);
    proof {
        lemma_filled_columns_align(h, rs);
        let w = nats(padded@);
        if cells_complete(h, rs) && line_width(w) <= usize::MAX {
            assert(rows_span_line(h, padded@));
            assert forall|i: int| 0 <= i < h.len() implies closes_sequences(#[trigger] h[i])
                && visible_width_of(h[i]) < w[i] by {
                lemma_column_is_widest_cell(h, rs, i, rs.len());
            }
            assert forall|k: int| 0 <= k < rs.len() implies visible_width_of(row_line(#[trigger] rs[k], w))
                == line_width(w) by {
                assert(rs[k].len() == h.len());
                assert(rows_span_line(rs[k], padded@));
                assert forall|i: int| 0 <= i < rs[k].len() implies closes_sequences(#[trigger] rs[k][i])
                    && visible_width_of(rs[k][i]) < w[i] by {
                    lemma_column_is_widest_cell(h, rs, i, rs.len());
                }
            }
            lemma_lines_span(h, rs, w);
        }
    }
    Some(lines)
}


proof fn lemma_body_line_count(rows: Seq<Seq<Seq<char>>>, widths: Seq<nat>)
    requires
        rows.len() > 0,
    ensures
        body_lines(rows, widths).len() == 2 * rows.len() - 1,
    decreases rows.len(),
{
    if rows.len() > 1 {
        lemma_body_line_count(rows.drop_last(), widths);
    }
}

/// A table of `n` rows has `2n + 3` lines: top border, header, separator,
/// the rows with `n - 1` separators between them, bottom border.
pub proof fn lemma_table_line_count(headers: Seq<Seq<char>>, rows: Seq<Seq<Seq<char>>>, widths: Seq<nat>)
    requires
        rows.len() > 0,
    ensures
        table_lines(headers, rows, widths).len() == 2 * rows.len() + 3,
{
    lemma_body_line_count(rows, widths);
}

/// A column is as wide as its widest cell: no cell of the column, header
/// included, is wider, and some cell is exactly as wide.
pub proof fn lemma_column_is_widest_cell(headers: Seq<Seq<char>>, rows: Seq<Seq<Seq<char>>>, i: int, k: nat)
    requires
        0 <= i < headers.len(),
        k <= rows.len(),
    ensures
        visible_width_of(headers[i]) <= column_width(headers, rows, i, k),
        forall|j: int| 0 <= j < k && i < rows[j].len()
            ==> visible_width_of(#[trigger] rows[j][i]) <= column_width(headers, rows, i, k),
        column_width(headers, rows, i, k) == visible_width_of(headers[i])
            || exists|j: int| 0 <= j < k && i < rows[j].len()
            && column_width(headers, rows, i, k) == visible_width_of(#[trigger] rows[j][i]),
    decreases k,
{
    if k > 0 {
        lemma_column_is_widest_cell(headers, rows, i, (k - 1) as nat);
        let j = k - 1;
        if i < rows[j].len() && visible_width_of(rows[j][i]) > column_width(headers, rows, i, (k - 1) as nat) {
            assert(column_width(headers, rows, i, k) == visible_width_of(rows[j][i]));
        }
    }
}

/// In a laid-out table every cell, header or data, stands between at least
/// one space on each side; the spaces fill its column, the right side
/// taking the odd one.
pub proof fn lemma_cells_have_margins(headers: Seq<Seq<char>>, rows: Seq<Seq<Seq<char>>>, k: int, i: int)
    requires
        rows_fit(headers, rows),
        -1 <= k < rows.len(),
        k == -1 ==> 0 <= i < headers.len(),
        k >= 0 ==> 0 <= i < rows[k].len(),
    ensures
        ({
            let cells = if k == -1 { headers } else { rows[k] };
            let widths = padded_widths(headers, rows);
            let shown = centered_cells(cells, widths)[i];
            exists|left: nat, right: nat|
                #![trigger spaces(left), spaces(right)]
                left >= 1 && right >= 1 && (right == left || right == left + 1)
                && left + visible_width_of(cells[i]) + right == widths[i]
                && shown == spaces(left) + cells[i] + spaces(right)
        }),
{
    let cells = if k == -1 { headers } else { rows[k] };
    let widths = padded_widths(headers, rows);
    if k >= 0 {
        assert(rows[k].len() <= headers.len());
    }
    lemma_column_is_widest_cell(headers, rows, i, rows.len());
    let w = column_width(headers, rows, i, rows.len());
    assert(visible_width_of(cells[i]) <= w);
    let cur = visible_width_of(cells[i]) as nat;
    let gap = (widths[i] - cur) as nat;
    let left = gap / 2;
    let right = (gap - gap / 2) as nat;
    assert(centered_cells(cells, widths)[i] == centered(cells[i], cur, widths[i]));
    assert(centered(cells[i], cur, widths[i]) == spaces(left) + cells[i] + spaces(right));
}

/// The sum of the widths.
pub open spec fn sum_widths(w: Seq<nat>) -> nat
    decreases w.len(),
{
    if w.len() == 0 {
        0
    } else {
        sum_widths(w.drop_last()) + w.last()
    }
}

/// The columns a line of the table takes: its columns and one for each of
/// the bars or corners around and between them.
pub open spec fn line_width(w: Seq<nat>) -> nat {
    sum_widths(w) + w.len() + 1
}

/// Every cell closes its control sequences and is narrower than its column.
pub open spec fn cells_within(cells: Seq<Seq<char>>, w: Seq<nat>) -> bool {
    forall|i: int| 0 <= i < cells.len() ==> closes_sequences(#[trigger] cells[i]) && visible_width_of(cells[i]) < w[i]
}

/// Each part after a vertical bar.
pub open spec fn bar_join(parts: Seq<Seq<char>>) -> Seq<char>
    decreases parts.len(),
{
    if parts.len() == 0 {
        Seq::empty()
    } else {
        bar_join(parts.drop_last()) + vbar() + parts.last()
    }
}

/// What a terminal shows of each part.
pub open spec fn stripped_all(parts: Seq<Seq<char>>) -> Seq<Seq<char>> {
    Seq::new(parts.len(), |i: int| stripped(parts[i]))
}

proof fn lemma_framed_bars(parts: Seq<Seq<char>>)
    requires
        parts.len() > 0,
    ensures
        framed(parts, '│', '│', '│') == bar_join(parts) + vbar(),
        seq!['│'] + join(parts, '│') == bar_join(parts),
    decreases parts.len(),
{
    if parts.len() == 1 {
        assert(bar_join(parts.drop_last()) =~= Seq::<char>::empty());
        assert(seq!['│'] + join(parts, '│') =~= bar_join(parts));
    } else {
        lemma_framed_bars(parts.drop_last());
        assert(seq!['│'] + join(parts, '│') =~= bar_join(parts));
    }
    assert(framed(parts, '│', '│', '│') =~= bar_join(parts) + vbar());
}

proof fn lemma_bar_plain()
    ensures
        scan(vbar(), false) == (vbar(), false),
{
    assert(!vbar().contains(esc())) by {
        if vbar().contains(esc()) {
            let k = choose|k: int| 0 <= k < vbar().len() && vbar()[k] == esc();
            assert(vbar()[k] == '│');
        }
    }
    lemma_scan_plain(vbar());
}

proof fn lemma_scan_bar_join(parts: Seq<Seq<char>>)
    requires
        forall|i: int| 0 <= i < parts.len() ==> closes_sequences(#[trigger] parts[i]),
    ensures
        scan(bar_join(parts), false) == (bar_join(stripped_all(parts)), false),
    decreases parts.len(),
{
    if parts.len() > 0 {
        let front = parts.drop_last();
        lemma_scan_bar_join(front);
        assert(stripped_all(parts).drop_last() =~= stripped_all(front));
        lemma_bar_plain();
        lemma_scan_concat(bar_join(front), vbar(), false);
        lemma_scan_concat(bar_join(front) + vbar(), parts.last(), false);
        assert(closes_sequences(parts[parts.len() - 1]));
        assert(stripped_all(parts).last() == stripped(parts.last()));
    } else {
        assert(bar_join(stripped_all(parts)) =~= Seq::<char>::empty());
    }
}

proof fn lemma_sum_take(w: Seq<nat>, k: int)
    requires
        0 <= k < w.len(),
    ensures
        sum_widths(w.take(k + 1)) == sum_widths(w.take(k)) + w[k],
{
    assert(w.take(k + 1).drop_last() =~= w.take(k));
}

proof fn lemma_sum_take_le(w: Seq<nat>, k: int)
    requires
        0 <= k <= w.len(),
    ensures
        sum_widths(w.take(k)) + k <= sum_widths(w) + w.len(),
    decreases w.len() - k,
{
    if k < w.len() {
        lemma_sum_take(w, k);
        lemma_sum_take_le(w, k + 1);
    } else {
        assert(w.take(k) =~= w);
    }
}

proof fn lemma_bar_join_width(parts: Seq<Seq<char>>, w: Seq<nat>, k: int)
    requires
        1 <= k <= parts.len(),
        parts.len() == w.len(),
        forall|i: int| 0 <= i < parts.len() ==> fills_between_bars(#[trigger] parts[i], w[i]),
        line_width(w) <= usize::MAX,
    ensures
        text_width(bar_join(stripped_all(parts).take(k))) == sum_widths(w.take(k)) + k,
    decreases k,
{
    let zs = stripped_all(parts).take(k);
    let z = stripped(parts[k - 1]);
    assert(zs.last() == z);
    lemma_sum_take(w, k - 1);
    lemma_sum_take_le(w, k);
    assert(fills_between_bars(parts[k - 1], w[k - 1]));
    if k == 1 {
        assert(zs.drop_last() =~= Seq::<Seq<char>>::empty());
        assert(bar_join(zs.drop_last()) =~= Seq::<char>::empty());
        assert(bar_join(zs) == bar_join(zs.drop_last()) + vbar() + zs.last());
        assert(bar_join(zs) =~= vbar() + z + closing_bar(false));
        assert(w.take(0) =~= Seq::<nat>::empty());
        assert(text_width(vbar() + stripped(parts[k - 1]) + closing_bar(false)) == 1 + w[k - 1]);
    } else {
        lemma_bar_join_width(parts, w, k - 1);
        let t = bar_join(stripped_all(parts).take(k - 1));
        assert(zs.drop_last() =~= stripped_all(parts).take(k - 1));
        assert(bar_join(zs) =~= t + vbar() + z + closing_bar(false));
        assert(text_width(t + vbar() + stripped(parts[k - 1]) + closing_bar(false)) == text_width(t) + 1 + w[k - 1]);
    }
}

/// A row line whose cells close their control sequences and fill their
/// columns takes the columns of the table line.
proof fn lemma_bar_line_width(parts: Seq<Seq<char>>, w: Seq<nat>)
    requires
        parts.len() == w.len(),
        parts.len() > 0,
        forall|i: int| 0 <= i < parts.len() ==> closes_sequences(#[trigger] parts[i]),
        forall|i: int| 0 <= i < parts.len() ==> fills_between_bars(#[trigger] parts[i], w[i]),
        line_width(w) <= usize::MAX,
    ensures
        visible_width_of(framed(parts, '│', '│', '│')) == line_width(w),
{
    let n = parts.len() as int;
    lemma_framed_bars(parts);
    lemma_scan_bar_join(parts);
    lemma_bar_plain();
    lemma_scan_concat(bar_join(parts), vbar(), false);
    let zs = stripped_all(parts);
    assert(stripped(framed(parts, '│', '│', '│')) == bar_join(zs) + vbar());
    let z = stripped(parts[n - 1]);
    assert(zs.last() == z);
    assert(w.take(n) =~= w);
    lemma_sum_take(w, n - 1);
    lemma_sum_take_le(w, n - 1);
    assert(fills_between_bars(parts[n - 1], w[n - 1]));
    if n == 1 {
        assert(zs.drop_last() =~= Seq::<Seq<char>>::empty());
        assert(bar_join(zs.drop_last()) =~= Seq::<char>::empty());
        assert(bar_join(zs) == bar_join(zs.drop_last()) + vbar() + zs.last());
        assert(bar_join(zs) + vbar() =~= vbar() + z + closing_bar(true));
        assert(w.take(0) =~= Seq::<nat>::empty());
        assert(text_width(vbar() + stripped(parts[n - 1]) + closing_bar(true)) == 1 + w[n - 1] + 1);
    } else {
        lemma_bar_join_width(parts, w, n - 1);
        let t = bar_join(zs.take(n - 1));
        assert(zs.drop_last() =~= zs.take(n - 1));
        assert(bar_join(zs) + vbar() =~= t + vbar() + z + closing_bar(true));
        assert(text_width(t + vbar() + stripped(parts[n - 1]) + closing_bar(true)) == text_width(t) + 1 + w[n - 1] + 1);
    }
}

/// A border line has one character for each column of the table line: its
/// rules and its corner and junction characters.
pub proof fn lemma_border_len(w: Seq<nat>, left: char, mid: char, right: char)
    requires
        w.len() > 0,
    ensures
        border(w, left, mid, right).len() == line_width(w),
    decreases w.len(),
{
    let rs = rules(w);
    if w.len() > 1 {
        lemma_border_len(w.drop_last(), left, mid, right);
        assert(rules(w.drop_last()) =~= rs.drop_last());
    } else {
        assert(w.drop_last() =~= Seq::<nat>::empty());
    }
    assert(join(rs, mid).len() == sum_widths(w) + w.len() - 1) by {
        lemma_join_len_any(rs, w, mid);
    }
}

proof fn lemma_join_len_any(parts: Seq<Seq<char>>, w: Seq<nat>, sep: char)
    requires
        parts.len() == w.len(),
        parts.len() > 0,
        forall|i: int| 0 <= i < parts.len() ==> (#[trigger] parts[i]).len() == w[i],
    ensures
        join(parts, sep).len() == sum_widths(w) + w.len() - 1,
    decreases parts.len(),
{
    let front = parts.drop_last();
    if parts.len() > 1 {
        assert forall|i: int| 0 <= i < front.len() implies (#[trigger] front[i]).len() == w.drop_last()[i] by {
            assert(front[i] == parts[i]);
        }
        lemma_join_len_any(front, w.drop_last(), sep);
        assert(parts.last() == parts[parts.len() - 1]);
        assert(parts.last().len() == w.last());
        assert(join(parts, sep) == join(front, sep).push(sep) + parts.last());
        assert(sum_widths(w) == sum_widths(w.drop_last()) + w.last());
    } else {
        assert(w.drop_last() =~= Seq::<nat>::empty());
        assert(sum_widths(w.drop_last()) == 0);
        assert(parts[0].len() == w[0]);
        assert(join(parts, sep) == parts[0]);
    }
}

proof fn lemma_body_lines_at(rows: Seq<Seq<Seq<char>>>, w: Seq<nat>)
    requires
        rows.len() > 0,
    ensures
        body_lines(rows, w).len() == 2 * rows.len() - 1,
        forall|j: int| 0 <= j < body_lines(rows, w).len() ==> #[trigger] body_lines(rows, w)[j] == if j % 2 == 0 {
            row_line(rows[j / 2], w)
        } else {
            separator(w)
        },
    decreases rows.len(),
{
    if rows.len() > 1 {
        let front = rows.drop_last();
        lemma_body_lines_at(front, w);
        let b = body_lines(rows, w);
        assert forall|j: int| 0 <= j < b.len() implies #[trigger] b[j] == if j % 2 == 0 {
            row_line(rows[j / 2], w)
        } else {
            separator(w)
        } by {
            if j < b.len() - 2 {
                assert(b[j] == body_lines(front, w)[j]);
                if j % 2 == 0 {
                    assert(front[j / 2] == rows[j / 2]);
                }
            } else if j == b.len() - 1 {
                assert(rows.last() == rows[j / 2]);
            }
        }
    }
}

/// What a line of a laid-out table takes: a row line (odd position) the
/// columns it shows, a border line (even position) its characters.
pub open spec fn line_columns(line: Seq<char>, j: int) -> nat {
    if j % 2 == 1 {
        visible_width_of(line) as nat
    } else {
        line.len()
    }
}

proof fn lemma_lines_span(h: Seq<Seq<char>>, rs: Seq<Seq<Seq<char>>>, w: Seq<nat>)
    requires
        rs.len() > 0,
        w.len() > 0,
        visible_width_of(row_line(h, w)) == line_width(w),
        forall|k: int| 0 <= k < rs.len() ==> visible_width_of(row_line(#[trigger] rs[k], w)) == line_width(w),
    ensures
        forall|j: int| 0 <= j < table_lines(h, rs, w).len()
            ==> line_columns(#[trigger] table_lines(h, rs, w)[j], j) == line_width(w),
{
    lemma_body_lines_at(rs, w);
    lemma_border_len(w, '┌', '┬', '┐');
    lemma_border_len(w, '├', '┼', '┤');
    lemma_border_len(w, '└', '┴', '┘');
    let head = seq![top_border(w), row_line(h, w), separator(w)];
    let body = body_lines(rs, w);
    let all = table_lines(h, rs, w);
    assert(all == head + body + seq![bottom_border(w)]);
    assert forall|j: int| 0 <= j < all.len() implies line_columns(#[trigger] all[j], j) == line_width(w) by {
        if j < 3 {
            assert(all[j] == head[j]);
        } else if j < 3 + body.len() {
            assert(all[j] == body[j - 3]);
            if j % 2 == 1 {
                assert((j - 3) % 2 == 0);
                assert(0 <= (j - 3) / 2 < rs.len());
            } else {
                assert((j - 3) % 2 == 1);
            }
        } else {
            assert(all[j] == bottom_border(w));
            assert(j == 2 * rs.len() + 2);
        }
    }
}

} // verus!
