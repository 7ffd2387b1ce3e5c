//! Table structure: decoding of the structure-token stream into cells, the
//! cell grid, and HTML serialisation.
use vstd::prelude::*;
use crate::text::{decimal, decimal_chars, push_chars, push_str, string_of};

verus! {

pub const TOKEN_EOS: i64 = 2;
pub const TOKEN_CELL_OPEN: i64 = 3;
pub const TOKEN_CELL_CLOSE: i64 = 4;
pub const TOKEN_ROW_OPEN: i64 = 5;
pub const TOKEN_ROW_CLOSE: i64 = 6;
/// Tokens `7..20` set a column span of `token - 7`, clamped to `[1, 10]`.
pub const TOKEN_COLSPAN_BASE: i64 = 7;
/// Tokens `20..33` set a row span of `token - 20`, clamped to `[1, 10]`.
pub const TOKEN_ROWSPAN_BASE: i64 = 20;
pub const TOKEN_SPAN_END: i64 = 33;
pub const MAX_SPAN: usize = 10;

/// Line style of a table.
#[derive(Clone, Copy, Debug, PartialEq, Eq, Structural)]
pub enum TableType {
    Wired,
    Lineless,
    Unknown,
}

/// One cell; `bbox` is `[x1, y1, x2, y2]` in thousandths of a pixel and
/// `confidence` in thousandths.
pub struct TableCell {
    pub row: usize,
    pub col: usize,
    pub row_span: usize,
    pub col_span: usize,
    pub bbox: [i64; 4],
    pub content: String,
    pub confidence: u32,
}

pub struct TableStructure {
    pub num_rows: usize,
    pub num_cols: usize,
    pub cells: Vec<TableCell>,
    pub html: String,
    pub bbox: [i64; 4],
    pub confidence: u32,
}

/// Cell `c` spans grid position `(r, k)`.
pub open spec fn covers(c: TableCell, r: int, k: int) -> bool {
    c.row <= r < c.row + c.row_span && c.col <= k < c.col + c.col_span
}

/// Index of the last of the first `n` cells that spans `(r, k)`.
pub open spec fn last_cover(cells: Seq<TableCell>, r: int, k: int, n: nat) -> Option<int>
    decreases n,
{
    if n == 0 {
        None
    } else if covers(cells[n - 1], r, k) {
        Some(n - 1)
    } else {
        last_cover(cells, r, k, (n - 1) as nat)
    }
}

/// Index of the first cell that starts at `(r, k)`, among cells `from..`.
pub open spec fn first_start(cells: Seq<TableCell>, r: int, k: int, from: nat) -> Option<int>
    decreases cells.len() - from,
{
    if from >= cells.len() {
        None
    } else if cells[from as int].row == r && cells[from as int].col == k {
        Some(from as int)
    } else {
        first_start(cells, r, k, from + 1)
    }
}

/// Index of the first cell that spans `(r, k)`, among cells `from..`.
pub open spec fn first_cover(cells: Seq<TableCell>, r: int, k: int, from: nat) -> Option<int>
    decreases cells.len() - from,
{
    if from >= cells.len() {
        None
    } else if covers(cells[from as int], r, k) {
        Some(from as int)
    } else {
        first_cover(cells, r, k, from + 1)
    }
}

pub open spec fn cell_tag(r: int) -> Seq<char> {
    if r == 0 {
        "th"@
    } else {
        "td"@
    }
}

/// ` rowspan="n"` / ` colspan="n"`, each only for a span above 1.
pub open spec fn span_attrs(c: TableCell) -> Seq<char> {
    (if c.row_span > 1 {
        " rowspan=\""@ + decimal(c.row_span as nat) + "\""@
    } else {
        seq![]
    }) + (if c.col_span > 1 {
        " colspan=\""@ + decimal(c.col_span as nat) + "\""@
    } else {
        seq![]
    })
}

pub open spec fn cell_html(c: TableCell, r: int) -> Seq<char> {
    "    <"@ + cell_tag(r) + span_attrs(c) + ">"@ + c.content@ + "</"@ + cell_tag(r) + ">\n"@
}

/// The cells of row `r` from column `k` on: at each column the first cell
/// that starts there is written and its span skipped, otherwise the column
/// is passed over.
pub open spec fn row_html(cells: Seq<TableCell>, num_cols: nat, r: int, k: nat) -> Seq<char>
    decreases num_cols - k,
{
    if k >= num_cols {
        seq![]
    } else {
        match first_start(cells, r, k as int, 0) {
            Some(i) => {
                let span = cells[i].col_span;
                if span >= 1 {
                    cell_html(cells[i], r) + if k + span < num_cols {
                        row_html(cells, num_cols, r, (k + span) as nat)
                    } else {
                        seq![]
                    }
                } else {
                    seq![]
                }
            },
            None => row_html(cells, num_cols, r, k + 1),
        }
    }
}

/// The first `n` rows, each one `<tr>` block.
pub open spec fn rows_html(cells: Seq<TableCell>, num_cols: nat, n: nat) -> Seq<char>
    decreases n,
{
    if n == 0 {
        seq![]
    } else {
        rows_html(cells, num_cols, (n - 1) as nat) + "  <tr>\n"@ + row_html(cells, num_cols, n - 1, 0)
            + "  </tr>\n"@
    }
}

pub open spec fn table_html(cells: Seq<TableCell>, num_rows: nat, num_cols: nat) -> Seq<char> {
    "<table>\n"@ + rows_html(cells, num_cols, num_rows) + "</table>"@
}

/// Every cell spans at least one row and one column.
pub open spec fn spans_positive(cells: Seq<TableCell>) -> bool {
    forall|i: int| 0 <= i < cells.len() ==> (#[trigger] cells[i]).row_span >= 1 && cells[i].col_span >= 1
}

/// Every cell ends within `num_rows` rows and `num_cols` columns.
pub open spec fn cells_within(cells: Seq<TableCell>, num_rows: int, num_cols: int) -> bool {
    forall|i: int|
        0 <= i < cells.len() ==> (#[trigger] cells[i]).row + cells[i].row_span <= num_rows && cells[i].col
            + cells[i].col_span <= num_cols
}

fn covers_exec(c: &TableCell, r: usize, k: usize) -> (b: bool)
    ensures
        b == covers(*c, r as int, k as int),
{
    r >= c.row && r - c.row < c.row_span && k >= c.col && k - c.col < c.col_span
}

impl TableCell {
    pub fn is_row_spanning(&self) -> (b: bool)
        ensures
            b == (self.row_span > 1),
    {
        self.row_span > 1
    }

    pub fn is_col_spanning(&self) -> (b: bool)
        ensures
            b == (self.col_span > 1),
    {
        self.col_span > 1
    }
}

impl TableStructure {
    /// Every cell spans at least one row and column and lies inside the
    /// grid.
    pub open spec fn wf(&self) -> bool {
        spans_positive(self.cells@) && cells_within(self.cells@, self.num_rows as int, self.num_cols as int)
    }

    /// The first cell that spans `(row, col)`.
    pub fn cell_at(&self, row: usize, col: usize) -> (r: Option<&TableCell>)
        ensures
            match first_cover(self.cells@, row as int, col as int, 0) {
                Some(i) => r == Some(&self.cells@[i]),
                None => r.is_none(),
            },
    {
        let mut i: usize = 0;
        while i < self.cells.len()
            invariant
                i <= self.cells.len(),
                first_cover(self.cells@, row as int, col as int, 0) == first_cover(
                    self.cells@,
                    row as int,
                    col as int,
                    i as nat,
                ),
            decreases self.cells.len() - i,
        {
            if covers_exec(&self.cells[i], row, col) {
                return Some(&self.cells[i]);
            }
            i += 1;
        }
        None
    }

    fn last_covering(&self, r: usize, k: usize) -> (o: Option<usize>)
        ensures
            match last_cover(self.cells@, r as int, k as int, self.cells.len() as nat) {
                Some(i) => o == Some(i as usize) && 0 <= i < self.cells.len(),
                None => o.is_none(),
            },
    {
        let mut n: usize = self.cells.len();
        while n > 0
            invariant
                n <= self.cells.len(),
                last_cover(self.cells@, r as int, k as int, self.cells.len() as nat) == last_cover(
                    self.cells@,
                    r as int,
                    k as int,
                    n as nat,
                ),
            decreases n,
        {
            if covers_exec(&self.cells[n - 1], r, k) {
                return Some(n - 1);
            }
            n -= 1;
        }
        None
    }

    /// A `num_rows` by `num_cols` grid whose entry `(r, c)` is the cell that
    /// spans it (the last such cell where several do), or `None`.
    pub fn as_grid(&self) -> (g: Vec<Vec<Option<&TableCell>>>)
        ensures
            g.len() == self.num_rows,
            forall|r: int| 0 <= r < self.num_rows ==> (#[trigger] g[r]).len() == self.num_cols,
            forall|r: int, k: int|
                0 <= r < self.num_rows && 0 <= k < self.num_cols ==> match last_cover(
                    self.cells@,
                    r,
                    k,
                    self.cells.len() as nat,
                ) {
                    Some(i) => #[trigger] g[r][k] == Some(&self.cells@[i]),
                    None => g[r][k].is_none(),
                },
    {
        let mut g: Vec<Vec<Option<&TableCell>>> = Vec::new();
        let mut r: usize = 0;
        while r < self.num_rows
            invariant
                r <= self.num_rows,
                g.len() == r,
                forall|rr: int| 0 <= rr < r ==> (#[trigger] g[rr]).len() == self.num_cols,
                forall|rr: int, k: int|
                    0 <= rr < r && 0 <= k < self.num_cols ==> match last_cover(
                        self.cells@,
                        rr,
                        k,
                        self.cells.len() as nat,
                    ) {
                        Some(i) => #[trigger] g[rr][k] == Some(&self.cells@[i]),
                        None => g[rr][k].is_none(),
                    },
            decreases self.num_rows - r,
        {
            let mut line: Vec<Option<&TableCell>> = Vec::new();
            let mut k: usize = 0;
            while k < self.num_cols
                invariant
                    k <= self.num_cols,
                    line.len() == k,
                    forall|kk: int|
                        0 <= kk < k ==> match last_cover(
                            self.cells@,
                            r as int,
                            kk,
                            self.cells.len() as nat,
                        ) {
                            Some(i) => #[trigger] line[kk] == Some(&self.cells@[i]),
                            None => line[kk].is_none(),
                        },
                decreases self.num_cols - k,
            {
                let found = match self.last_covering(r, k) {
                    Some(i) => Some(&self.cells[i]),
                    None => None,
                };
                line.push(found);
                k += 1;
            }
            g.push(line);
            r += 1;
        }
        g
    }
}

impl TableStructure {
    fn first_starting(&self, r: usize, k: usize) -> (o: Option<usize>)
        ensures
            match first_start(self.cells@, r as int, k as int, 0) {
                Some(i) => o == Some(i as usize) && 0 <= i < self.cells.len(),
                None => o.is_none(),
            },
    {
        let mut i: usize = 0;
        while i < self.cells.len()
            invariant
                i <= self.cells.len(),
                first_start(self.cells@, r as int, k as int, 0) == first_start(
                    self.cells@,
                    r as int,
                    k as int,
                    i as nat,
                ),
            decreases self.cells.len() - i,
        {
            if self.cells[i].row == r && self.cells[i].col == k {
                return Some(i);
            }
            i += 1;
        }
        None
    }

    fn write_cell(out: &mut Vec<char>, cell: &TableCell, r: usize)
        ensures
            final(out)@ == old(out)@ + cell_html(*cell, r as int),
    {
        let tag = if r == 0 {
            "th"
        } else {
            "td"
        };
        push_str(out, "    <");
        push_str(out, tag);
        let ghost after_tag = out@;
        if cell.row_span > 1 {
            push_str(out, " rowspan=\"");
            push_chars(out, &decimal_chars(cell.row_span));
            push_str(out, "\"");
        }
        let ghost after_rows = out@;
        if cell.col_span > 1 {
            push_str(out, " colspan=\"");
            push_chars(out, &decimal_chars(cell.col_span));
            push_str(out, "\"");
        }
        assert(out@ =~= after_tag + span_attrs(*cell));
        push_str(out, ">");
        push_str(out, cell.content.as_str());
        push_str(out, "</");
        push_str(out, tag);
        push_str(out, ">\n");
        assert(out@ =~= old(out)@ + cell_html(*cell, r as int));
    }

    fn write_row(&self, out: &mut Vec<char>, r: usize)
        requires
            self.wf(),
        ensures
            final(out)@ == old(out)@ + row_html(self.cells@, self.num_cols as nat, r as int, 0),
    {
        let ghost cells = self.cells@;
        let ghost nc = self.num_cols as nat;
        let mut k: usize = 0;
        while k < self.num_cols
            invariant
                cells == self.cells@,
                nc == self.num_cols,
                self.wf(),
                old(out)@ + row_html(cells, nc, r as int, 0) == out@ + row_html(cells, nc, r as int, k as nat),
            decreases self.num_cols - k,
        {
            match self.first_starting(r, k) {
                Some(i) => {
                    let cell = &self.cells[i];
                    assert(cells[i as int].col_span >= 1);
                    let ghost before = out@;
                    let ghost k0 = k as nat;
                    Self::write_cell(out, cell, r);
                    if cell.col_span >= self.num_cols - k {
                        k = self.num_cols;
                    } else {
                        k = k + cell.col_span;
                    }
                    assert(row_html(cells, nc, r as int, k0) == cell_html(cells[i as int], r as int)
                        + row_html(cells, nc, r as int, k as nat));
                    assert(before + row_html(cells, nc, r as int, k0) =~= out@ + row_html(
                        cells,
                        nc,
                        r as int,
                        k as nat,
                    ));
                },
                None => {
                    k = k + 1;
                },
            }
        }
    }

    /// HTML for the table: row 0 as header cells, later rows as data cells,
    /// one `<tr>` block per row, span attributes only above 1.
    pub fn to_html(&self) -> (h: String)
        requires
            self.wf(),
        ensures
            h@ == table_html(self.cells@, self.num_rows as nat, self.num_cols as nat),
    {
        let mut out: Vec<char> = Vec::new();
        push_str(&mut out, "<table>\n");
        let mut r: usize = 0;
        while r < self.num_rows
            invariant
                self.wf(),
                r <= self.num_rows,
                out@ == "<table>\n"@ + rows_html(self.cells@, self.num_cols as nat, r as nat),
            decreases self.num_rows - r,
        {
            push_str(&mut out, "  <tr>\n");
            self.write_row(&mut out, r);
            push_str(&mut out, "  </tr>\n");
            r += 1;
            assert(out@ =~= "<table>\n"@ + rows_html(self.cells@, self.num_cols as nat, r as nat));
        }
        push_str(&mut out, "</table>");
        assert(out@ =~= table_html(self.cells@, self.num_rows as nat, self.num_cols as nat));
        string_of(&out)
    }
}

/// Position of the structure decoder within the table.
#[derive(Clone, Copy)]
pub struct TokenCursor {
    pub row: usize,
    pub col: usize,
    /// Widest row closed so far.
    pub max_cols: usize,
    /// Number of cells emitted so far.
    pub cell_idx: usize,
    pub in_cell: bool,
    pub row_span: usize,
    pub col_span: usize,
}

pub open spec fn initial_cursor() -> TokenCursor {
    TokenCursor { row: 0, col: 0, max_cols: 0, cell_idx: 0, in_cell: false, row_span: 1, col_span: 1 }
}

/// `v` clamped to `[1, MAX_SPAN]`.
pub open spec fn clamp_span(v: int) -> usize {
    if v < 1 {
        1
    } else if v > MAX_SPAN {
        MAX_SPAN
    } else {
        v as usize
    }
}

/// The cursor after one structure token (end of sequence excluded).
pub open spec fn cursor_step(c: TokenCursor, t: i64) -> TokenCursor {
    if t == TOKEN_ROW_OPEN {
        TokenCursor { col: 0, ..c }
    } else if t == TOKEN_ROW_CLOSE {
        TokenCursor {
            max_cols: if c.col > c.max_cols { c.col } else { c.max_cols },
            row: (c.row + 1) as usize,
            ..c
        }
    } else if t == TOKEN_CELL_OPEN {
        TokenCursor { in_cell: true, row_span: 1, col_span: 1, ..c }
    } else if t == TOKEN_CELL_CLOSE {
        if c.in_cell {
            TokenCursor {
                col: (c.col + c.col_span) as usize,
                cell_idx: (c.cell_idx + 1) as usize,
                in_cell: false,
                ..c
            }
        } else {
            c
        }
    } else if TOKEN_COLSPAN_BASE <= t < TOKEN_ROWSPAN_BASE {
        TokenCursor { col_span: clamp_span(t - TOKEN_COLSPAN_BASE), ..c }
    } else if TOKEN_ROWSPAN_BASE <= t < TOKEN_SPAN_END {
        TokenCursor { row_span: clamp_span(t - TOKEN_ROWSPAN_BASE), ..c }
    } else {
        c
    }
}

/// An end-of-sequence token is among the first `n`.
pub open spec fn eos_within(tokens: Seq<i64>, n: nat) -> bool
    decreases n,
{
    n > 0 && (eos_within(tokens, (n - 1) as nat) || tokens[n - 1] == TOKEN_EOS)
}

/// The cursor after the first `n` tokens; nothing moves it after the end
/// of sequence.
pub open spec fn cursor_after(tokens: Seq<i64>, n: nat) -> TokenCursor
    decreases n,
{
    if n == 0 {
        initial_cursor()
    } else if eos_within(tokens, n) {
        cursor_after(tokens, (n - 1) as nat)
    } else {
        cursor_step(cursor_after(tokens, (n - 1) as nat), tokens[n - 1])
    }
}

/// The cursors at which the first `n` tokens closed a cell, in order.
pub open spec fn closed_cells(tokens: Seq<i64>, n: nat) -> Seq<TokenCursor>
    decreases n,
{
    if n == 0 {
        seq![]
    } else {
        let c = cursor_after(tokens, (n - 1) as nat);
        if !eos_within(tokens, n) && tokens[n - 1] == TOKEN_CELL_CLOSE && c.in_cell {
            closed_cells(tokens, (n - 1) as nat).push(c)
        } else {
            closed_cells(tokens, (n - 1) as nat)
        }
    }
}

/// Box of the `i`-th cell: the `i`-th entry of `boxes`, or zeros past its end.
pub open spec fn cell_box(boxes: Seq<[i64; 4]>, i: int) -> [i64; 4] {
    if 0 <= i < boxes.len() {
        boxes[i]
    } else {
        [0, 0, 0, 0]
    }
}

/// The first `n` tokens keep every count within these bounds.
pub open spec fn cursor_bounded(c: TokenCursor, n: nat) -> bool {
    &&& c.row <= n
    &&& c.col <= MAX_SPAN * n
    &&& c.max_cols <= MAX_SPAN * n
    &&& c.cell_idx <= n
    &&& 1 <= c.row_span <= MAX_SPAN
    &&& 1 <= c.col_span <= MAX_SPAN
}

fn clamp_span_exec(v: i64) -> (r: usize)
    ensures
        r == clamp_span(v as int),
{
    if v < 1 {
        1
    } else if v > 10 {
        MAX_SPAN
    } else {
        v as usize
    }
}

fn cursor_step_exec(c: TokenCursor, t: i64, Ghost(n): Ghost<nat>) -> (r: TokenCursor)
    requires
        cursor_bounded(c, n),
        MAX_SPAN * (n + 1) <= usize::MAX,
    ensures
        r == cursor_step(c, t),
        cursor_bounded(r, n + 1),
{
    if t == TOKEN_ROW_OPEN {
        TokenCursor { col: 0, ..c }
    } else if t == TOKEN_ROW_CLOSE {
        TokenCursor { max_cols: if c.col > c.max_cols { c.col } else { c.max_cols }, row: c.row + 1, ..c }
    } else if t == TOKEN_CELL_OPEN {
        TokenCursor { in_cell: true, row_span: 1, col_span: 1, ..c }
    } else if t == TOKEN_CELL_CLOSE {
        if c.in_cell {
            TokenCursor { col: c.col + c.col_span, cell_idx: c.cell_idx + 1, in_cell: false, ..c }
        } else {
            c
        }
    } else if TOKEN_COLSPAN_BASE <= t && t < TOKEN_ROWSPAN_BASE {
        TokenCursor { col_span: clamp_span_exec(t - TOKEN_COLSPAN_BASE), ..c }
    } else if TOKEN_ROWSPAN_BASE <= t && t < TOKEN_SPAN_END {
        TokenCursor { row_span: clamp_span_exec(t - TOKEN_ROWSPAN_BASE), ..c }
    } else {
        c
    }
}

/// The decoded cells, then the row and column counts (each at least 1).
/// The furthest row end (`row + row_span`) among the first `n` cells, or 0.
pub open spec fn row_end_max(cs: Seq<TokenCursor>, n: nat) -> int
    decreases n,
{
    if n == 0 {
        0
    } else {
        let m = row_end_max(cs, (n - 1) as nat);
        let e = cs[n - 1].row + cs[n - 1].row_span;
        if e > m { e } else { m }
    }
}

/// The furthest column end (`col + col_span`) among the first `n` cells, or 0.
pub open spec fn col_end_max(cs: Seq<TokenCursor>, n: nat) -> int
    decreases n,
{
    if n == 0 {
        0
    } else {
        let m = col_end_max(cs, (n - 1) as nat);
        let e = cs[n - 1].col + cs[n - 1].col_span;
        if e > m { e } else { m }
    }
}

pub open spec fn max3(a: int, b: int, c: int) -> int {
    let m = if a >= b { a } else { b };
    if m >= c { m } else { c }
}

/// Rows: those closed, at least 1, and enough for every cell's row span.
/// Columns: the widest closed row, at least 1, and enough for every cell's
/// column span.
pub open spec fn decoded_dims(tokens: Seq<i64>) -> (usize, usize) {
    let c = cursor_after(tokens, tokens.len());
    let cs = closed_cells(tokens, tokens.len());
    (
        max3(c.row as int, 1, row_end_max(cs, cs.len())) as usize,
        max3(c.max_cols as int, 1, col_end_max(cs, cs.len())) as usize,
    )
}

/// Decodes a structure-token stream: row-open resets the column, row-close
/// moves to the next row and records the widest row, cell-open starts a 1x1
/// cell, span tokens set the pending span, and cell-close emits a cell with
/// the next entry of `boxes` and moves right by its column span. Decoding
/// stops at the end-of-sequence token. The row and column counts grow where
/// a cell's span reaches past them, so every cell lies inside the grid.
pub fn decode_tokens(tokens: &Vec<i64>, boxes: &Vec<[i64; 4]>) -> (r: (Vec<TableCell>, usize, usize))
    requires
        MAX_SPAN * (tokens.len() + 1) <= usize::MAX,
    ensures
        r.0.len() == closed_cells(tokens@, tokens.len() as nat).len(),
        forall|i: int|
            0 <= i < r.0.len() ==> {
                let c = #[trigger] closed_cells(tokens@, tokens.len() as nat)[i];
                &&& r.0[i].row == c.row
                &&& r.0[i].col == c.col
                &&& r.0[i].row_span == c.row_span
                &&& r.0[i].col_span == c.col_span
                &&& r.0[i].bbox == cell_box(boxes@, i)
                &&& r.0[i].content@.len() == 0
                &&& r.0[i].confidence == 1000
            },
        (r.1, r.2) == decoded_dims(tokens@),
        spans_positive(r.0@),
        cells_within(r.0@, r.1 as int, r.2 as int),
{
    let mut cells: Vec<TableCell> = Vec::new();
    let mut c = TokenCursor { row: 0, col: 0, max_cols: 0, cell_idx: 0, in_cell: false, row_span: 1, col_span: 1 };
    let mut i: usize = 0;
    let mut stopped = false;
    while i < tokens.len()
        invariant
            MAX_SPAN * (tokens.len() + 1) <= usize::MAX,
            i <= tokens.len(),
            stopped == eos_within(tokens@, i as nat),
            c == cursor_after(tokens@, i as nat),
            cursor_bounded(c, i as nat),
            c.cell_idx == cells.len(),
            cells.len() == closed_cells(tokens@, i as nat).len(),
            forall|j: int|
                0 <= j < cells.len() ==> {
                    let cc = #[trigger] closed_cells(tokens@, i as nat)[j];
                    &&& cells[j].row == cc.row
                    &&& cells[j].col == cc.col
                    &&& cells[j].row_span == cc.row_span
                    &&& cells[j].col_span == cc.col_span
                    &&& cells[j].bbox == cell_box(boxes@, j)
                    &&& cells[j].content@.len() == 0
                    &&& cells[j].confidence == 1000
                },
            spans_positive(cells@),
            forall|j: int|
                0 <= j < cells.len() ==> (#[trigger] cells[j]).row <= i && cells[j].col <= MAX_SPAN * i
                    && cells[j].row_span <= MAX_SPAN && cells[j].col_span <= MAX_SPAN,
        decreases tokens.len() - i,
    {
        let t = tokens[i];
        let ghost prev_cells = closed_cells(tokens@, i as nat);
        if !stopped && t == TOKEN_EOS {
            stopped = true;
        }
        if !stopped {
            if t == TOKEN_CELL_CLOSE && c.in_cell {
                let ghost old_cells = cells@;
                let bbox: [i64; 4] = if c.cell_idx < boxes.len() {
                    boxes[c.cell_idx]
                } else {
                    [0, 0, 0, 0]
                };
                cells.push(
                    TableCell {
                        row: c.row,
                        col: c.col,
                        row_span: c.row_span,
                        col_span: c.col_span,
                        bbox,
                        content: String::new(),
                        confidence: 1000,
                    },
                );
                assert(forall|j: int| 0 <= j < cells.len() - 1 ==> cells@[j] == old_cells[j]);
            }
            c = cursor_step_exec(c, t, Ghost(i as nat));
        }
        i += 1;
        proof {
            assert(forall|j: int| 0 <= j < prev_cells.len() ==> closed_cells(tokens@, i as nat)[j] == prev_cells[j]);
        }
    }
    let ghost cs = closed_cells(tokens@, tokens.len() as nat);
    let mut row_end: usize = 0;
    let mut col_end: usize = 0;
    let mut k: usize = 0;
    while k < cells.len()
        invariant
            MAX_SPAN * (tokens.len() + 1) <= usize::MAX,
            k <= cells.len(),
            cells.len() == cs.len(),
            forall|j: int|
                0 <= j < cells.len() ==> {
                    let cc = #[trigger] cs[j];
                    &&& cells[j].row == cc.row
                    &&& cells[j].col == cc.col
                    &&& cells[j].row_span == cc.row_span
                    &&& cells[j].col_span == cc.col_span
                },
            forall|j: int|
                0 <= j < cells.len() ==> (#[trigger] cells[j]).row <= tokens.len() && cells[j].col <= MAX_SPAN
                    * tokens.len() && cells[j].row_span <= MAX_SPAN && cells[j].col_span <= MAX_SPAN,
            row_end as int == row_end_max(cs, k as nat),
            col_end as int == col_end_max(cs, k as nat),
            forall|j: int|
                0 <= j < k ==> (#[trigger] cells[j]).row + cells[j].row_span <= row_end && cells[j].col
                    + cells[j].col_span <= col_end,
        decreases cells.len() - k,
    {
        assert(cs[k as int].row == cells[k as int].row);
        let re = cells[k].row + cells[k].row_span;
        let ce = cells[k].col + cells[k].col_span;
        if re > row_end {
            row_end = re;
        }
        if ce > col_end {
            col_end = ce;
        }
        k += 1;
    }
    let mut rows = if c.row > 1 {
        c.row
    } else {
        1
    };
    if row_end > rows {
        rows = row_end;
    }
    let mut cols = if c.max_cols > 1 {
        c.max_cols
    } else {
        1
    };
    if col_end > cols {
        cols = col_end;
    }
    (cells, rows, cols)
}

/// Table line-style settings: the model input size in pixels.
pub struct TableClassifier {
    pub input_size: (u32, u32),
}

impl TableClassifier {
    pub fn new() -> (r: Self)
        ensures
            r.input_size == (224u32, 224u32),
    {
        TableClassifier { input_size: (224, 224) }
    }

    /// The line style from the two class scores (any common scale): wired
    /// where its score is higher, else lineless.
    pub fn decide(&self, wired_score: i64, lineless_score: i64) -> (r: TableType)
        ensures
            r == (if wired_score > lineless_score { TableType::Wired } else { TableType::Lineless }),
    {
        if wired_score > lineless_score {
            TableType::Wired
        } else {
            TableType::Lineless
        }
    }
}

/// Table-structure settings: the model input size in pixels and the
/// longest token sequence read.
pub struct TableRecognizer {
    pub input_size: (u32, u32),
    pub max_length: usize,
}

impl TableRecognizer {
    pub fn new() -> (r: Self)
        ensures
            r.input_size == (488u32, 488u32),
            r.max_length == 500,
    {
        TableRecognizer { input_size: (488, 488), max_length: 500 }
    }

    pub fn with_input_size(self, width: u32, height: u32) -> (r: Self)
        ensures
            r.input_size == (width, height),
            r.max_length == self.max_length,
    {
        TableRecognizer { input_size: (width, height), ..self }
    }

    pub fn with_max_length(self, max_length: usize) -> (r: Self)
        ensures
            r.input_size == self.input_size,
            r.max_length == max_length,
    {
        TableRecognizer { max_length, ..self }
    }

    /// The table of a `width` by `height` image from its structure tokens
    /// and cell boxes (thousandths of a pixel): the decoded cells, row and
    /// column counts, and HTML, over the whole image with full confidence.
    pub fn structure_from_tokens(&self, tokens: &Vec<i64>, boxes: &Vec<[i64; 4]>, width: u32, height: u32) -> (r: TableStructure)
        requires
            MAX_SPAN * (tokens.len() + 1) <= usize::MAX,
        ensures
            r.wf(),
            r.cells.len() == closed_cells(tokens@, tokens.len() as nat).len(),
            forall|i: int|
                0 <= i < r.cells.len() ==> {
                    let c = #[trigger] closed_cells(tokens@, tokens.len() as nat)[i];
                    &&& r.cells[i].row == c.row
                    &&& r.cells[i].col == c.col
                    &&& r.cells[i].row_span == c.row_span
                    &&& r.cells[i].col_span == c.col_span
                    &&& r.cells[i].bbox == cell_box(boxes@, i)
                    &&& r.cells[i].content@.len() == 0
                    &&& r.cells[i].confidence == 1000
                },
            (r.num_rows, r.num_cols) == decoded_dims(tokens@),
            r.html@ == table_html(r.cells@, r.num_rows as nat, r.num_cols as nat),
            r.bbox@ == seq![0i64, 0, (width * 1000) as i64, (height * 1000) as i64],
            r.confidence == 1000,
    {
        let (cells, num_rows, num_cols) = decode_tokens(tokens, boxes);
        let mut t = TableStructure {
            num_rows,
            num_cols,
            cells,
            html: String::new(),
            bbox: [0, 0, width as i64 * 1000, height as i64 * 1000],
            confidence: 1000,
        };
        t.html = t.to_html();
        assert(t.bbox@ =~= seq![0i64, 0, (width * 1000) as i64, (height * 1000) as i64]);
        t
    }
}

impl TableRecognizer {
    /// The table of a `width` by `height` image when the model gives no
    /// structure: one cell over the whole image.
    pub fn whole_table(&self, width: u32, height: u32) -> (r: TableStructure)
        ensures
            r.wf(),
            r.num_rows == 1 && r.num_cols == 1,
            r.cells.len() == 1,
            r.cells[0].row == 0 && r.cells[0].col == 0,
            r.cells[0].row_span == 1 && r.cells[0].col_span == 1,
            r.cells[0].bbox@ == seq![0i64, 0, (width * 1000) as i64, (height * 1000) as i64],
            r.html@ == table_html(r.cells@, 1, 1),
    {
        let bbox: [i64; 4] = [0, 0, width as i64 * 1000, height as i64 * 1000];
        assert(bbox@ =~= seq![0i64, 0, (width * 1000) as i64, (height * 1000) as i64]);
        let mut cells: Vec<TableCell> = Vec::new();
        cells.push(TableCell { row: 0, col: 0, row_span: 1, col_span: 1, bbox, content: String::new(), confidence: 1000 });
        let mut t = TableStructure { num_rows: 1, num_cols: 1, cells, html: String::new(), bbox, confidence: 1000 };
        t.html = t.to_html();
        t
    }
}

/// Every grid position a cell spans (within the grid) names a cell that
/// spans it, the last such one; positions no cell spans name none.
pub proof fn lemma_grid_marks_spanned(t: TableStructure, r: int, k: int)
    requires
        0 <= r < t.num_rows,
        0 <= k < t.num_cols,
    ensures
        (exists|i: int| 0 <= i < t.cells.len() && covers(t.cells@[i], r, k)) ==> match last_cover(
            t.cells@,
            r,
            k,
            t.cells.len() as nat,
        ) {
            Some(j) => 0 <= j < t.cells.len() && covers(t.cells@[j], r, k) && forall|i: int|
                j < i < t.cells.len() ==> !covers(t.cells@[i], r, k),
            None => false,
        },
        !(exists|i: int| 0 <= i < t.cells.len() && covers(t.cells@[i], r, k)) ==> last_cover(
            t.cells@,
            r,
            k,
            t.cells.len() as nat,
        ) is None,
{
    lemma_last_cover(t.cells@, r, k, t.cells.len() as nat);
}

proof fn lemma_last_cover(cells: Seq<TableCell>, r: int, k: int, n: nat)
    requires
        n <= cells.len(),
    ensures
        (exists|i: int| 0 <= i < n && covers(cells[i], r, k)) ==> match last_cover(cells, r, k, n) {
            Some(j) => 0 <= j < n && covers(cells[j], r, k) && forall|i: int| j < i < n ==> !covers(cells[i], r, k),
            None => false,
        },
        !(exists|i: int| 0 <= i < n && covers(cells[i], r, k)) ==> last_cover(cells, r, k, n) is None,
    decreases n,
{
    if n > 0 {
        lemma_last_cover(cells, r, k, (n - 1) as nat);
        if !covers(cells[n - 1], r, k) {
            if exists|i: int| 0 <= i < n && covers(cells[i], r, k) {
                let i = choose|i: int| 0 <= i < n && covers(cells[i], r, k);
                assert(i < n - 1);
            }
        }
    }
}

} // verus!
