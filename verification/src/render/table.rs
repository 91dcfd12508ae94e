//! Pipe tables drawn with `+`, `-` and `|` borders.
use vstd::prelude::*;

use crate::model::{strs, TableData};
use crate::render::text::{clip, clip_chars, lemma_pad_plain, no_escape, pad, pad_chars, spaces, to_strings};
use crate::strings::{chars_of, seqs_of};

verus! {

pub open spec fn repeat_char(c: char, n: nat) -> Seq<char> {
    Seq::new(n, |_i: int| c)
}

/// `+---+--+` for the given column widths.
pub open spec fn separator(ws: Seq<usize>) -> Seq<char>
    decreases ws.len(),
{
    if ws.len() == 0 {
        seq!['+']
    } else {
        separator(ws.drop_last()) + repeat_char('-', ws.last() as nat) + seq!['+']
    }
}

pub open spec fn cell_text(cells: Seq<Seq<char>>, i: int) -> Seq<char> {
    if 0 <= i < cells.len() {
        cells[i]
    } else {
        seq![]
    }
}

/// The cells of a row padded to the column widths after `|`, missing cells blank.
pub open spec fn row_body(cells: Seq<Seq<char>>, ws: Seq<usize>) -> Seq<char>
    decreases ws.len(),
{
    if ws.len() == 0 {
        seq!['|']
    } else {
        let i = ws.len() - 1;
        row_body(cells, ws.drop_last()) + pad(clip(cell_text(cells, i), ws[i] as nat), ws[i] as nat)
            + seq!['|']
    }
}

pub open spec fn max_row_len(rows: Seq<Seq<Seq<char>>>) -> nat
    decreases rows.len(),
{
    if rows.len() == 0 {
        0
    } else {
        let m = max_row_len(rows.drop_last());
        if rows.last().len() > m {
            rows.last().len()
        } else {
            m
        }
    }
}

/// Equal column widths filling `width` with the `cols + 1` borders, the first columns
/// one cell wider to use up the rest.
pub open spec fn table_widths(width: nat, cols: nat) -> Seq<usize> {
    let content: nat = if width >= cols + 1 {
        (width - cols - 1) as nat
    } else {
        0
    };
    let base: nat = if content / cols >= 1 {
        content / cols
    } else {
        1
    };
    let rem: nat = if content >= base * cols {
        (content - base * cols) as nat
    } else {
        0
    };
    Seq::new(cols, |i: int| (if i < rem { base + 1 } else { base }) as usize)
}

pub open spec fn table_rows(headers: Seq<Seq<char>>, rows: Seq<Seq<Seq<char>>>, width: nat) -> Seq<
    Seq<char>,
> {
    if width < 4 {
        seq!["[table omitted: width too small]"@]
    } else {
        let cols = if headers.len() > max_row_len(rows) {
            headers.len()
        } else {
            max_row_len(rows)
        };
        if cols == 0 {
            seq!["[empty table]"@]
        } else {
            let ws = table_widths(width, cols);
            let head = if headers.len() > 0 {
                seq![separator(ws), row_body(headers, ws), separator(ws)]
            } else {
                seq![separator(ws)]
            };
            head + rows.map_values(|r: Seq<Seq<char>>| row_body(r, ws)) + seq![separator(ws)]
        }
    }
}

/// Every row of a table is drawn, in order, between the header block and the closing
/// border: with `c` columns (the most cells in the header or any row) and a width of at
/// least 4, the table has one border line, the header row and a second border when
/// there is a header, then one line per row, then a border. Row `k`'s line is its cells,
/// each clipped and padded to its column's width, between `|` borders, and the border
/// lines are `+` corners joined by `-` runs of the column widths.
pub proof fn lemma_table_draws_every_row(headers: Seq<Seq<char>>, rows: Seq<Seq<Seq<char>>>, width: nat)
    requires
        width >= 4,
        headers.len() > 0 || max_row_len(rows) > 0,
    ensures
        ({
            let out = table_rows(headers, rows, width);
            let cols = if headers.len() > max_row_len(rows) {
                headers.len()
            } else {
                max_row_len(rows)
            };
            let ws = table_widths(width, cols);
            let head: int = if headers.len() > 0 {
                3
            } else {
                1
            };
            &&& ws.len() == cols
            &&& out.len() == head + rows.len() + 1
            &&& out[0] == separator(ws)
            &&& out[out.len() - 1] == separator(ws)
            &&& headers.len() > 0 ==> out[1] == row_body(headers, ws) && out[2] == separator(ws)
            &&& forall|k: int| 0 <= k < rows.len() ==> #[trigger] out[head + k] == row_body(rows[k], ws)
        }),
{
}

/// The total of the column widths.
pub open spec fn widths_sum(ws: Seq<usize>) -> nat
    decreases ws.len(),
{
    if ws.len() == 0 {
        0
    } else {
        widths_sum(ws.drop_last()) + ws.last() as nat
    }
}

/// Where column `j`'s text starts in a row: after the `|` before each earlier column
/// and its cells, and its own `|`.
pub open spec fn column_start(ws: Seq<usize>, j: int) -> int {
    j + 1 + widths_sum(ws.take(j))
}

/// Column `j` of the row `r`: at its place, cell `j` (blank when missing) clipped to the
/// column width and filled with spaces to it, then `|`.
pub open spec fn column_shows(r: Seq<char>, cells: Seq<Seq<char>>, ws: Seq<usize>, j: int) -> bool {
    let st = column_start(ws, j);
    let t = clip(cell_text(cells, j), ws[j] as nat);
    &&& r.subrange(st, st + ws[j]) == t + spaces((ws[j] - t.len()) as nat)
    &&& r[st + ws[j]] == '|'
}

/// A table row of cells without escape characters: `|` first, then each column `j` at
/// its place holds cell `j` (blank when missing) clipped to the column width and filled
/// with spaces to it, followed by `|`.
pub proof fn lemma_row_cells(cells: Seq<Seq<char>>, ws: Seq<usize>)
    requires
        forall|i: int| 0 <= i < cells.len() ==> no_escape(#[trigger] cells[i]),
    ensures
        row_body(cells, ws).len() == ws.len() + 1 + widths_sum(ws),
        row_body(cells, ws)[0] == '|',
        forall|j: int| 0 <= j < ws.len() ==> #[trigger] column_shows(row_body(cells, ws), cells, ws, j),
    decreases ws.len(),
{
    if ws.len() > 0 {
        let pre = ws.drop_last();
        lemma_row_cells(cells, pre);
        let n = ws.len() - 1;
        let w = ws[n] as nat;
        let t = clip(cell_text(cells, n), w);
        assert(no_escape(cell_text(cells, n)));
        lemma_pad_plain(cell_text(cells, n), w);
        assert(clip(t, w) == t);
        let seg = pad(t, w);
        assert(seg == pad(cell_text(cells, n), w)) by {
            assert(clip(cell_text(cells, n), w) == t);
        }
        let rp = row_body(cells, pre);
        let r = row_body(cells, ws);
        assert(r == rp + seg + seq!['|']);
        assert(pre =~= ws.take(n));
        assert forall|j: int| 0 <= j < ws.len() implies #[trigger] column_shows(row_body(cells, ws), cells, ws, j) by {
            if j < n {
                assert(ws.take(j) =~= pre.take(j));
                assert(pre[j] == ws[j]);
                let st = column_start(pre, j);
                assert(st + ws[j] < rp.len()) by {
                    lemma_sum_take_le(pre, j + 1);
                    assert(pre.take(j + 1).drop_last() =~= pre.take(j));
                }
                assert(column_shows(rp, cells, pre, j));
                assert(r.subrange(st, st + ws[j]) =~= rp.subrange(st, st + ws[j]));
                assert(r[st + ws[j]] == rp[st + ws[j]]);
            } else {
                assert(ws.take(n) =~= pre);
                assert(column_start(ws, j) == rp.len());
                assert(r.subrange(rp.len() as int, rp.len() + w as int) =~= seg);
            }
        }
    }
}

proof fn lemma_sum_take_le(ws: Seq<usize>, j: int)
    requires
        0 <= j <= ws.len(),
    ensures
        widths_sum(ws.take(j)) + j <= widths_sum(ws) + ws.len(),
    decreases ws.len(),
{
    if j < ws.len() {
        lemma_sum_take_le(ws.drop_last(), j);
        assert(ws.drop_last().take(j) =~= ws.take(j));
    } else {
        assert(ws.take(j) =~= ws);
    }
}

pub fn make_separator(widths: &Vec<usize>) -> (r: Vec<char>)
    ensures
        r@ == separator(widths@),
{
    let mut out: Vec<char> = Vec::new();
    out.push('+');
    let mut i: usize = 0;
    assert(out@ =~= separator(widths@.take(0)));
    while i < widths.len()
        invariant
            i <= widths@.len(),
            out@ == separator(widths@.take(i as int)),
        decreases widths@.len() - i,
    {
        let w = widths[i];
        let ghost before = out@;
        let mut k: usize = 0;
        while k < w
            invariant
                k <= w,
                out@ =~= before + repeat_char('-', k as nat),
            decreases w - k,
        {
            out.push('-');
            k = k + 1;
        }
        out.push('+');
        assert(widths@.take(i + 1).drop_last() =~= widths@.take(i as int));
        assert(out@ =~= separator(widths@.take(i + 1)));
        i = i + 1;
    }
    assert(widths@.take(widths@.len() as int) =~= widths@);
    out
}

pub fn make_row(cells: &Vec<Vec<char>>, widths: &Vec<usize>) -> (r: Vec<char>)
    ensures
        r@ == row_body(seqs_of(cells@), widths@),
{
    let ghost cs = seqs_of(cells@);
    let mut out: Vec<char> = Vec::new();
    out.push('|');
    let mut i: usize = 0;
    assert(out@ =~= row_body(cs, widths@.take(0)));
    while i < widths.len()
        invariant
            i <= widths@.len(),
            cs == seqs_of(cells@),
            out@ == row_body(cs, widths@.take(i as int)),
        decreases widths@.len() - i,
    {
        let w = widths[i];
        let raw: Vec<char> = if i < cells.len() {
            clip_chars(&cells[i], w)
        } else {
            Vec::new()
        };
        assert(raw@ == clip(cell_text(cs, i as int), w as nat)) by {
            if i >= cells.len() {
                assert(raw@ =~= clip(Seq::<char>::empty(), w as nat));
            }
        }
        let mut padded = pad_chars(&raw, w);
        out.append(&mut padded);
        out.push('|');
        assert(widths@.take(i + 1).drop_last() =~= widths@.take(i as int));
        assert(out@ =~= row_body(cs, widths@.take(i + 1)));
        i = i + 1;
    }
    assert(widths@.take(widths@.len() as int) =~= widths@);
    out
}

fn cells_of(row: &Vec<String>) -> (r: Vec<Vec<char>>)
    ensures
        seqs_of(r@) == strs(row@),
{
    let mut out: Vec<Vec<char>> = Vec::new();
    let mut i: usize = 0;
    while i < row.len()
        invariant
            i <= row@.len(),
            seqs_of(out@) =~= strs(row@).take(i as int),
        decreases row@.len() - i,
    {
        let ghost before = seqs_of(out@);
        let cs = chars_of(row[i].as_str());
        out.push(cs);
        assert(seqs_of(out@) =~= before.push(row@[i as int]@));
        assert(strs(row@).take(i + 1) =~= strs(row@).take(i as int).push(row@[i as int]@));
        i = i + 1;
    }
    out
}

/// The table as lines of at most `width` characters with ASCII borders.
pub fn render_table(table: &TableData, width: usize) -> (r: Vec<String>)
    ensures
        r@.map_values(|x: String| x@) == table_rows(
            strs(table.headers@),
            table.rows@.map_values(|r: Vec<String>| strs(r@)),
            width as nat,
        ),
{
    let out = render_table_chars(table, width);
    to_strings(&out)
}

pub fn render_table_chars(table: &TableData, width: usize) -> (r: Vec<Vec<char>>)
    ensures
        seqs_of(r@) == table_rows(
            strs(table.headers@),
            table.rows@.map_values(|r: Vec<String>| strs(r@)),
            width as nat,
        ),
{
    let ghost hs = strs(table.headers@);
    let ghost rs = table.rows@.map_values(|r: Vec<String>| strs(r@));
    let mut out: Vec<Vec<char>> = Vec::new();
    if width < 4 {
        out.push(chars_of("[table omitted: width too small]"));
        assert(seqs_of(out@) =~= seq!["[table omitted: width too small]"@]);
        return out;
    }
    let mut max_row: usize = 0;
    let mut i: usize = 0;
    assert(rs.take(0) =~= Seq::<Seq<Seq<char>>>::empty());
    while i < table.rows.len()
        invariant
            i <= table.rows@.len(),
            rs == table.rows@.map_values(|r: Vec<String>| strs(r@)),
            max_row == max_row_len(rs.take(i as int)),
        decreases table.rows@.len() - i,
    {
        assert(rs.take(i + 1).drop_last() =~= rs.take(i as int));
        assert(rs.take(i + 1).last().len() == table.rows@[i as int]@.len());
        if table.rows[i].len() > max_row {
            max_row = table.rows[i].len();
        }
        i = i + 1;
    }
    assert(rs.take(rs.len() as int) =~= rs);
    let cols = if table.headers.len() > max_row {
        table.headers.len()
    } else {
        max_row
    };
    if cols == 0 {
        out.push(chars_of("[empty table]"));
        assert(seqs_of(out@) =~= seq!["[empty table]"@]);
        return out;
    }
    let content: usize = if width > cols {
        width - cols - 1
    } else {
        0
    };
    let base: usize = if content / cols >= 1 {
        content / cols
    } else {
        1
    };
    assert(base * cols <= content || base == 1) by (nonlinear_arith)
        requires
            base == (if content / cols >= 1 { content / cols } else { 1 }),
            cols > 0,
    ;
    let bc: usize = if base == 1 {
        cols
    } else {
        base * cols
    };
    assert(bc == base * cols) by (nonlinear_arith)
        requires
            bc == (if base == 1 { cols as int } else { base * cols }),
    ;
    let rem: usize = if bc <= content {
        content - bc
    } else {
        0
    };
    let ghost wsv = table_widths(width as nat, cols as nat);
    let mut widths: Vec<usize> = Vec::new();
    let mut k: usize = 0;
    while k < cols
        invariant
            k <= cols,
            wsv == table_widths(width as nat, cols as nat),
            content == (if width >= cols + 1 { (width - cols - 1) as nat } else { 0 }),
            base == (if content / cols >= 1 { content / cols } else { 1 }),
            rem == (if content >= base * cols { (content - base * cols) as nat } else { 0 }),
            base <= width,
            widths@ =~= wsv.take(k as int),
        decreases cols - k,
    {
        let w = if k < rem {
            base + 1
        } else {
            base
        };
        widths.push(w);
        k = k + 1;
    }
    assert(wsv.take(cols as int) =~= wsv);
    let sep = make_separator(&widths);
    out.push(sep);
    if table.headers.len() > 0 {
        let hc = cells_of(&table.headers);
        let hr = make_row(&hc, &widths);
        out.push(hr);
        let sep2 = make_separator(&widths);
        out.push(sep2);
        assert(seqs_of(out@) =~= seq![separator(wsv), row_body(hs, wsv), separator(wsv)]);
    } else {
        assert(seqs_of(out@) =~= seq![separator(wsv)]);
    }
    let ghost head = seqs_of(out@);
    i = 0;
    while i < table.rows.len()
        invariant
            i <= table.rows@.len(),
            widths@ == wsv,
            rs == table.rows@.map_values(|r: Vec<String>| strs(r@)),
            seqs_of(out@) =~= head + rs.take(i as int).map_values(|r: Seq<Seq<char>>| row_body(r, wsv)),
        decreases table.rows@.len() - i,
    {
        let cells = cells_of(&table.rows[i]);
        let line = make_row(&cells, &widths);
        let ghost before = seqs_of(out@);
        out.push(line);
        assert(seqs_of(out@) =~= before.push(line@));
        assert(rs[i as int] == strs(table.rows@[i as int]@));
        assert(rs.take(i + 1).map_values(|r: Seq<Seq<char>>| row_body(r, wsv)) =~= rs.take(
            i as int,
        ).map_values(|r: Seq<Seq<char>>| row_body(r, wsv)).push(row_body(rs[i as int], wsv)));
        assert(rs.take(i + 1) =~= rs.take(i as int).push(rs[i as int]));
        i = i + 1;
    }
    let last = make_separator(&widths);
    let ghost before = seqs_of(out@);
    out.push(last);
    assert(seqs_of(out@) =~= before.push(separator(wsv)));
    assert(rs.take(rs.len() as int) =~= rs);
    assert(cols == (if hs.len() > max_row_len(rs) { hs.len() } else { max_row_len(rs) }));
    out
}

} // verus!
