//! The screen of a VT100/ANSI terminal: a grid of cells with a cursor, and
//! what printable characters, C0 controls and CSI sequences do to it.
//!
//! Bytes are turned into actions by the `vte` parser; the actions are then
//! performed on the grid here. Sequences other than those listed (SGR, OSC,
//! DCS and the rest) are consumed and change nothing.

use vstd::prelude::*;
use crate::rows::rows_view;

verus! {

/// A colour of a cell.
#[derive(Clone, Copy, Debug, PartialEq, Eq, Structural)]
pub enum Color {
    Default,
    Indexed(u8),
    Rgb(u8, u8, u8),
}

/// One cell of the grid.
#[derive(Clone, Copy, Debug, PartialEq, Eq, Structural)]
pub struct Cell {
    pub ch: char,
    pub fg: Color,
    pub bg: Color,
    pub bold: bool,
    pub underline: bool,
}

/// The cell of an empty screen: a space in the default colours.
pub open spec fn blank_cell() -> Cell {
    Cell { ch: ' ', fg: Color::Default, bg: Color::Default, bold: false, underline: false }
}

impl Default for Cell {
    fn default() -> (cell: Self)
        ensures
            cell == blank_cell(),
    {
        Cell { ch: ' ', fg: Color::Default, bg: Color::Default, bold: false, underline: false }
    }
}

/// The screen as a value: the grid, its size and the cursor.
pub struct Grid {
    pub cursor_x: usize,
    pub cursor_y: usize,
    pub cols: usize,
    pub rows: usize,
    pub cells: Seq<Seq<Cell>>,
}

/// A screen in good order: at least one cell, `rows` rows of `cols` cells
/// each, and the cursor on one of them.
pub open spec fn grid_wf(g: Grid) -> bool {
    &&& g.cols >= 1
    &&& g.rows >= 1
    &&& g.cursor_x < g.cols
    &&& g.cursor_y < g.rows
    &&& g.cells.len() == g.rows
    &&& forall|y: int| 0 <= y < g.rows ==> (#[trigger] g.cells[y]).len() == g.cols
}

/// A row of blank cells.
pub open spec fn blank_row(cols: usize) -> Seq<Cell> {
    Seq::new(cols as nat, |x: int| blank_cell())
}

/// The empty screen of the given size, cursor in the upper left corner.
pub open spec fn blank_grid(cols: usize, rows: usize) -> Grid {
    Grid {
        cursor_x: 0,
        cursor_y: 0,
        cols,
        rows,
        cells: Seq::new(rows as nat, |y: int| blank_row(cols)),
    }
}

/// The topmost row is dropped and a blank row is added at the bottom.
pub open spec fn grid_scroll_up(g: Grid) -> Grid {
    Grid { cells: g.cells.drop_first().push(blank_row(g.cols)), ..g }
}

/// The cursor goes one row down; on the last row the screen scrolls.
pub open spec fn grid_line_feed(g: Grid) -> Grid {
    if g.cursor_y + 1 >= g.rows {
        grid_scroll_up(g)
    } else {
        Grid { cursor_y: (g.cursor_y + 1) as usize, ..g }
    }
}

/// The cursor goes to the start of the next row.
pub open spec fn grid_newline(g: Grid) -> Grid {
    grid_line_feed(Grid { cursor_x: 0, ..g })
}

/// The character is put under the cursor and the cursor advances; past
/// the last column it goes to the start of the next row.
pub open spec fn grid_print(g: Grid, ch: char) -> Grid {
    let row = g.cells[g.cursor_y as int];
    let cell = Cell { ch, ..row[g.cursor_x as int] };
    let cells = g.cells.update(g.cursor_y as int, row.update(g.cursor_x as int, cell));
    if g.cursor_x + 1 >= g.cols {
        grid_newline(Grid { cells, ..g })
    } else {
        Grid { cells, cursor_x: (g.cursor_x + 1) as usize, ..g }
    }
}

/// The smaller of two numbers.
pub open spec fn least(a: int, b: int) -> int {
    if a <= b {
        a
    } else {
        b
    }
}

/// A C0 control: line feed, vertical tab and form feed go one row down;
/// carriage return goes to the first column; backspace goes one column
/// back, not beyond the first; tab goes to the next multiple of eight, not
/// beyond the last column. Every other control changes nothing.
pub open spec fn grid_execute(g: Grid, byte: u8) -> Grid {
    if byte == 0x0a || byte == 0x0b || byte == 0x0c {
        grid_line_feed(g)
    } else if byte == 0x0d {
        Grid { cursor_x: 0, ..g }
    } else if byte == 0x08 {
        Grid {
            cursor_x: if g.cursor_x > 0 {
                (g.cursor_x - 1) as usize
            } else {
                0
            },
            ..g
        }
    } else if byte == 0x09 {
        Grid { cursor_x: least((g.cursor_x / 8 + 1) * 8, g.cols - 1) as usize, ..g }
    } else {
        g
    }
}

/// Whether position `(y1, x1)` comes before `(y2, x2)` in reading order.
pub open spec fn comes_before(y1: int, x1: int, y2: int, x2: int) -> bool {
    y1 < y2 || (y1 == y2 && x1 < x2)
}

/// The cells with those from `(from_y, from_x)` up to, not including,
/// `(to_y, to_x)` in reading order made blank.
pub open spec fn erased(
    cells: Seq<Seq<Cell>>,
    from_y: int,
    from_x: int,
    to_y: int,
    to_x: int,
) -> Seq<Seq<Cell>> {
    Seq::new(
        cells.len(),
        |y: int|
            Seq::new(
                cells[y].len(),
                |x: int|
                    if !comes_before(y, x, from_y, from_x) && comes_before(y, x, to_y, to_x) {
                        blank_cell()
                    } else {
                        cells[y][x]
                    },
            ),
    )
}

/// A count given as a parameter: 1 where the parameter is 0 or missing.
pub open spec fn count_of(param: u16) -> int {
    if param == 0 {
        1
    } else {
        param as int
    }
}

/// A CSI sequence with the first two parameters `first` and `second` (0
/// where missing) and the final character `action`.
///
/// `A`, `B`, `C`, `D` move the cursor up, down, forward and back by the
/// count, stopping at the border. `H` and `f` put it on the row and column
/// given, counted from 1, within the screen. `J` erases the screen from
/// the cursor to the end (0), from the start to the cursor (1), or whole (2
/// and 3); `K` does the same within the row of the cursor (0, 1, 2). Any
/// other sequence changes nothing.
pub open spec fn grid_csi(g: Grid, first: u16, second: u16, action: char) -> Grid {
    let cx = g.cursor_x as int;
    let cy = g.cursor_y as int;
    if action == 'A' {
        Grid {
            cursor_y: if cy >= count_of(first) {
                (cy - count_of(first)) as usize
            } else {
                0
            },
            ..g
        }
    } else if action == 'B' {
        Grid { cursor_y: least(cy + count_of(first), g.rows - 1) as usize, ..g }
    } else if action == 'C' {
        Grid { cursor_x: least(cx + count_of(first), g.cols - 1) as usize, ..g }
    } else if action == 'D' {
        Grid {
            cursor_x: if cx >= count_of(first) {
                (cx - count_of(first)) as usize
            } else {
                0
            },
            ..g
        }
    } else if action == 'H' || action == 'f' {
        Grid {
            cursor_y: least(count_of(first) - 1, g.rows - 1) as usize,
            cursor_x: least(count_of(second) - 1, g.cols - 1) as usize,
            ..g
        }
    } else if action == 'J' {
        if first == 0 {
            Grid { cells: erased(g.cells, cy, cx, g.rows as int, 0), ..g }
        } else if first == 1 {
            Grid { cells: erased(g.cells, 0, 0, cy, cx + 1), ..g }
        } else if first == 2 || first == 3 {
            Grid { cells: erased(g.cells, 0, 0, g.rows as int, 0), ..g }
        } else {
            g
        }
    } else if action == 'K' {
        if first == 0 {
            Grid { cells: erased(g.cells, cy, cx, cy, g.cols as int), ..g }
        } else if first == 1 {
            Grid { cells: erased(g.cells, cy, 0, cy, cx + 1), ..g }
        } else if first == 2 {
            Grid { cells: erased(g.cells, cy, 0, cy, g.cols as int), ..g }
        } else {
            g
        }
    } else {
        g
    }
}

/// What the parser asks of the screen.
#[derive(Debug)]
pub enum VtAction {
    /// Draw a character.
    Print(char),
    /// Execute a C0 or C1 control.
    Execute(u8),
    /// Dispatch a CSI sequence with its parameters, each with its
    /// subparameters, and its final character.
    CsiDispatch { params: Vec<Vec<u16>>, action: char },
}

/// The first value of parameter number `index`, 0 where there is none.
pub open spec fn param_value(params: Seq<Vec<u16>>, index: int) -> u16 {
    if 0 <= index < params.len() && params[index]@.len() > 0 {
        params[index]@[0]
    } else {
        0
    }
}

/// The screen after one action.
pub open spec fn grid_apply(g: Grid, action: VtAction) -> Grid {
    match action {
        VtAction::Print(ch) => grid_print(g, ch),
        VtAction::Execute(byte) => grid_execute(g, byte),
        VtAction::CsiDispatch { params, action } => grid_csi(
            g,
            param_value(params@, 0),
            param_value(params@, 1),
            action,
        ),
    }
}

/// The screen after a sequence of actions.
pub open spec fn grid_apply_all(g: Grid, actions: Seq<VtAction>) -> Grid
    decreases actions.len(),
{
    if actions.len() == 0 {
        g
    } else {
        grid_apply(grid_apply_all(g, actions.drop_last()), actions.last())
    }
}

/// Whether two screens have the same size.
pub open spec fn same_size(a: Grid, b: Grid) -> bool {
    a.cols == b.cols && a.rows == b.rows
}

/// Erasing keeps the shape of the grid.
pub proof fn lemma_erased_shape(g: Grid, from_y: int, from_x: int, to_y: int, to_x: int)
    requires
        grid_wf(g),
    ensures
        grid_wf(Grid { cells: erased(g.cells, from_y, from_x, to_y, to_x), ..g }),
{
}

/// Whatever the action, the screen stays in good order and keeps its size:
/// the cursor stays on the grid, and the grid keeps its rows and columns.
pub proof fn lemma_apply_keeps_order(g: Grid, action: VtAction)
    requires
        grid_wf(g),
    ensures
        grid_wf(grid_apply(g, action)),
        same_size(g, grid_apply(g, action)),
{
    match action {
        VtAction::Print(ch) => {
            let row = g.cells[g.cursor_y as int];
            let cell = Cell { ch, ..row[g.cursor_x as int] };
            let cells = g.cells.update(g.cursor_y as int, row.update(g.cursor_x as int, cell));
            let written = Grid { cells, ..g };
            assert(grid_wf(written));
            lemma_line_feed_keeps_order(Grid { cursor_x: 0, ..written });
        },
        VtAction::Execute(byte) => {
            lemma_line_feed_keeps_order(g);
        },
        VtAction::CsiDispatch { params, action } => {
            let first = param_value(params@, 0);
            let cx = g.cursor_x as int;
            let cy = g.cursor_y as int;
            lemma_erased_shape(g, cy, cx, g.rows as int, 0);
            lemma_erased_shape(g, 0, 0, cy, cx + 1);
            lemma_erased_shape(g, 0, 0, g.rows as int, 0);
            lemma_erased_shape(g, cy, cx, cy, g.cols as int);
            lemma_erased_shape(g, cy, 0, cy, cx + 1);
            lemma_erased_shape(g, cy, 0, cy, g.cols as int);
        },
    }
}

proof fn lemma_line_feed_keeps_order(g: Grid)
    requires
        grid_wf(g),
    ensures
        grid_wf(grid_line_feed(g)),
        same_size(g, grid_line_feed(g)),
{
    let s = grid_scroll_up(g);
    assert forall|y: int| 0 <= y < s.rows implies (#[trigger] s.cells[y]).len() == s.cols by {
        if y < g.rows - 1 {
            assert(s.cells[y] == g.cells[y + 1]);
        }
    }
}

/// Erasing the display as a whole (CSI `2 J` or `3 J`) leaves every cell
/// blank.
pub proof fn lemma_erase_display_blanks(g: Grid, second: u16)
    requires
        grid_wf(g),
    ensures
        grid_csi(g, 2, second, 'J').cells == blank_grid(g.cols, g.rows).cells,
        grid_csi(g, 3, second, 'J').cells == blank_grid(g.cols, g.rows).cells,
{
    let cells = erased(g.cells, 0, 0, g.rows as int, 0);
    let blank = blank_grid(g.cols, g.rows).cells;
    assert(cells.len() == blank.len());
    assert forall|y: int| 0 <= y < cells.len() implies cells[y] =~= blank[y] by {
        assert(g.cells[y].len() == g.cols);
    }
    assert(cells =~= blank);
}

/// After any sequence of actions the cursor is on the grid, and the grid
/// has as many rows and columns as before.
pub proof fn lemma_apply_all_keeps_order(g: Grid, actions: Seq<VtAction>)
    requires
        grid_wf(g),
    ensures
        grid_wf(grid_apply_all(g, actions)),
        same_size(g, grid_apply_all(g, actions)),
    decreases actions.len(),
{
    if actions.len() > 0 {
        lemma_apply_all_keeps_order(g, actions.drop_last());
        lemma_apply_keeps_order(grid_apply_all(g, actions.drop_last()), actions.last());
    }
}

/// The state that the actions of the parser work on: the grid, its size
/// and the cursor.
pub struct EmulatorPerformer {
    pub cursor_x: usize,
    pub cursor_y: usize,
    pub cols: usize,
    pub rows: usize,
    pub cells: Vec<Vec<Cell>>,
}

fn make_blank_row(cols: usize) -> (row: Vec<Cell>)
    ensures
        row@ == blank_row(cols),
{
    let mut row: Vec<Cell> = Vec::new();
    let mut x: usize = 0;
    while x < cols
        invariant
            x <= cols,
            row@ == blank_row(x),
        decreases cols - x,
    {
        row.push(Cell::default());
        assert(row@ =~= blank_row((x + 1) as usize));
        x += 1;
    }
    row
}

fn set_cell(cells: &mut Vec<Vec<Cell>>, y: usize, x: usize, cell: Cell)
    requires
        y < old(cells)@.len(),
        x < old(cells)@[y as int]@.len(),
    ensures
        rows_view(final(cells)@) == rows_view(old(cells)@).update(
            y as int,
            rows_view(old(cells)@)[y as int].update(x as int, cell),
        ),
{
    let ghost before = cells@;
    cells[y][x] = cell;
    proof {
        let lhs = rows_view(cells@);
        let rhs = rows_view(before).update(y as int, rows_view(before)[y as int].update(x as int, cell));
        assert(lhs.len() == rhs.len());
        assert forall|r: int| 0 <= r < lhs.len() implies lhs[r] == rhs[r] by {
            assert(lhs[r] == cells@[r]@);
            assert(rows_view(before)[r] == before[r]@);
            if r != y {
                assert(cells@[r] == before[r]);
            } else {
                assert(cells@[r]@ =~= before[r]@.update(x as int, cell));
            }
        }
        assert(lhs =~= rhs);
    }
}

impl EmulatorPerformer {
    /// The screen as a value.
    pub open spec fn grid(&self) -> Grid {
        Grid {
            cursor_x: self.cursor_x,
            cursor_y: self.cursor_y,
            cols: self.cols,
            rows: self.rows,
            cells: rows_view(self.cells@),
        }
    }

    /// Whether the screen is in good order.
    pub open spec fn wf(&self) -> bool {
        grid_wf(self.grid())
    }

    /// Drops the topmost row and appends a blank one.
    pub fn scroll_up(&mut self)
        requires
            old(self).wf(),
        ensures
            final(self).grid() == grid_scroll_up(old(self).grid()),
            final(self).wf(),
    {
        let ghost before = self.grid();
        self.cells.remove(0);
        self.cells.push(make_blank_row(self.cols));
        proof {
            assert(self.grid().cells =~= grid_scroll_up(before).cells);
            lemma_line_feed_keeps_order(Grid { cursor_y: (before.rows - 1) as usize, ..before });
        }
    }

    fn line_feed(&mut self)
        requires
            old(self).wf(),
        ensures
            final(self).grid() == grid_line_feed(old(self).grid()),
            final(self).wf(),
    {
        proof {
            lemma_line_feed_keeps_order(self.grid());
        }
        if self.cursor_y + 1 >= self.rows {
            self.scroll_up();
        } else {
            self.cursor_y += 1;
        }
    }

    /// Puts the cursor at the start of the next row, scrolling on the last.
    pub fn newline(&mut self)
        requires
            old(self).wf(),
        ensures
            final(self).grid() == grid_newline(old(self).grid()),
            final(self).wf(),
    {
        self.cursor_x = 0;
        self.line_feed();
    }

    /// Draws a character under the cursor and advances the cursor.
    pub fn print(&mut self, ch: char)
        requires
            old(self).wf(),
        ensures
            final(self).grid() == grid_print(old(self).grid(), ch),
            final(self).wf(),
    {
        proof {
            lemma_apply_keeps_order(self.grid(), VtAction::Print(ch));
        }
        let ghost before = self.grid();
        assert(before.cells[self.cursor_y as int] == self.cells@[self.cursor_y as int]@);
        let old_cell: Cell = self.cells[self.cursor_y][self.cursor_x];
        let cell = Cell {
            ch,
            fg: old_cell.fg,
            bg: old_cell.bg,
            bold: old_cell.bold,
            underline: old_cell.underline,
        };
        set_cell(&mut self.cells, self.cursor_y, self.cursor_x, cell);
        if self.cursor_x + 1 >= self.cols {
            assert(grid_wf(self.grid()));
            self.newline();
        } else {
            self.cursor_x += 1;
        }
    }

    /// Executes a C0 control.
    pub fn execute(&mut self, byte: u8)
        requires
            old(self).wf(),
        ensures
            final(self).grid() == grid_execute(old(self).grid(), byte),
            final(self).wf(),
    {
        proof {
            lemma_apply_keeps_order(self.grid(), VtAction::Execute(byte));
        }
        if byte == 0x0a || byte == 0x0b || byte == 0x0c {
            self.line_feed();
        } else if byte == 0x0d {
            self.cursor_x = 0;
        } else if byte == 0x08 {
            if self.cursor_x > 0 {
                self.cursor_x -= 1;
            }
        } else if byte == 0x09 {
            let room: usize = self.cols - 1 - self.cursor_x;
            let step: usize = 8 - self.cursor_x % 8;
            if step <= room {
                self.cursor_x = self.cursor_x + step;
            } else {
                self.cursor_x = self.cols - 1;
            }
        }
    }

    /// Makes blank the cells from `(from_y, from_x)` up to, not
    /// including, `(to_y, to_x)` in reading order.
    fn erase(&mut self, from_y: usize, from_x: usize, to_y: usize, to_x: usize)
        requires
            old(self).wf(),
            from_y <= to_y <= old(self).rows,
            from_x <= old(self).cols,
            to_x <= old(self).cols,
            from_y < old(self).rows,
            from_y == to_y ==> from_x <= to_x,
            to_y == old(self).rows ==> to_x == 0,
        ensures
            final(self).grid() == (Grid {
                cells: erased(
                    old(self).grid().cells,
                    from_y as int,
                    from_x as int,
                    to_y as int,
                    to_x as int,
                ),
                ..old(self).grid()
            }),
            final(self).wf(),
    {
        let ghost start = self.grid();
        let mut y: usize = from_y;
        assert(self.grid().cells =~~= erased(
            start.cells,
            from_y as int,
            from_x as int,
            from_y as int,
            from_x as int,
        ));
        while y < self.rows && y <= to_y
            invariant
                from_y <= y,
                y <= to_y + 1,
                to_y <= start.rows,
                from_x <= start.cols,
                to_x <= start.cols,
                to_y == start.rows ==> to_x == 0,
                from_y == to_y ==> from_x <= to_x,
                grid_wf(start),
                self.wf(),
                self.grid() == (Grid {
                    cells: self.grid().cells,
                    ..start
                }),
                y <= to_y ==> self.grid().cells == erased(
                    start.cells,
                    from_y as int,
                    from_x as int,
                    y as int,
                    if y == from_y {
                        from_x as int
                    } else {
                        0
                    },
                ),
                y > to_y ==> self.grid().cells == erased(
                    start.cells,
                    from_y as int,
                    from_x as int,
                    to_y as int,
                    to_x as int,
                ),
            decreases start.rows + 1 - y,
        {
            let first: usize = if y == from_y {
                from_x
            } else {
                0
            };
            let last: usize = if y == to_y {
                to_x
            } else {
                self.cols
            };
            let mut x: usize = first;
            while x < last
                invariant
                    from_y <= y <= to_y,
                    y < start.rows,
                    first == (if y == from_y {
                        from_x
                    } else {
                        0
                    }),
                    last == (if y == to_y {
                        to_x
                    } else {
                        start.cols
                    }),
                    first <= x <= last,
                    last <= start.cols,
                    grid_wf(start),
                    self.wf(),
                    self.grid() == (Grid { cells: self.grid().cells, ..start }),
                    self.grid().cells == erased(
                        start.cells,
                        from_y as int,
                        from_x as int,
                        y as int,
                        x as int,
                    ),
                decreases last - x,
            {
                let ghost before = self.grid().cells;
                assert(before[y as int] == self.cells@[y as int]@);
                set_cell(&mut self.cells, y, x, Cell::default());
                proof {
                    let now = self.grid().cells;
                    let want = erased(start.cells, from_y as int, from_x as int, y as int, x + 1);
                    assert(now.len() == want.len());
                    assert forall|r: int| 0 <= r < now.len() implies now[r] =~= want[r] by {
                        assert(start.cells[r].len() == start.cols);
                        assert(before[r].len() == start.cols);
                    }
                    assert(now =~= want);
                }
                x += 1;
            }
            proof {
                let now = self.grid().cells;
                if y < to_y {
                    let want = erased(start.cells, from_y as int, from_x as int, y + 1, 0);
                    assert(now.len() == want.len());
                    assert forall|r: int| 0 <= r < now.len() implies now[r] =~= want[r] by {
                        assert(start.cells[r].len() == start.cols);
                    }
                    assert(now =~= want);
                } else {
                    let want = erased(
                        start.cells,
                        from_y as int,
                        from_x as int,
                        to_y as int,
                        to_x as int,
                    );
                    assert(now.len() == want.len());
                    assert forall|r: int| 0 <= r < now.len() implies now[r] =~= want[r] by {
                        assert(start.cells[r].len() == start.cols);
                    }
                    assert(now =~= want);
                }
            }
            y += 1;
        }
        proof {
            if y <= to_y {
                assert(y == start.rows && to_y == start.rows);
            }
        }
    }

    /// Dispatches a CSI sequence, given its first two parameters (0 where
    /// missing) and its final character.
    pub fn csi_dispatch(&mut self, first: u16, second: u16, action: char)
        requires
            old(self).wf(),
        ensures
            final(self).grid() == grid_csi(old(self).grid(), first, second, action),
            final(self).wf(),
    {
        let ghost before = self.grid();
        proof {
            let cx = before.cursor_x as int;
            let cy = before.cursor_y as int;
            lemma_erased_shape(before, cy, cx, before.rows as int, 0);
            lemma_erased_shape(before, 0, 0, cy, cx + 1);
            lemma_erased_shape(before, 0, 0, before.rows as int, 0);
            lemma_erased_shape(before, cy, cx, cy, before.cols as int);
            lemma_erased_shape(before, cy, 0, cy, cx + 1);
            lemma_erased_shape(before, cy, 0, cy, before.cols as int);
        }
        let n: usize = if first == 0 {
            1
        } else {
            first as usize
        };
        let m: usize = if second == 0 {
            1
        } else {
            second as usize
        };
        if action == 'A' {
            self.cursor_y = if self.cursor_y >= n {
                self.cursor_y - n
            } else {
                0
            };
        } else if action == 'B' {
            let room: usize = self.rows - 1 - self.cursor_y;
            self.cursor_y = if n <= room {
                self.cursor_y + n
            } else {
                self.rows - 1
            };
        } else if action == 'C' {
            let room: usize = self.cols - 1 - self.cursor_x;
            self.cursor_x = if n <= room {
                self.cursor_x + n
            } else {
                self.cols - 1
            };
        } else if action == 'D' {
            self.cursor_x = if self.cursor_x >= n {
                self.cursor_x - n
            } else {
                0
            };
        } else if action == 'H' || action == 'f' {
            self.cursor_y = if n - 1 <= self.rows - 1 {
                n - 1
            } else {
                self.rows - 1
            };
            self.cursor_x = if m - 1 <= self.cols - 1 {
                m - 1
            } else {
                self.cols - 1
            };
        } else if action == 'J' {
            if first == 0 {
                self.erase(self.cursor_y, self.cursor_x, self.rows, 0);
            } else if first == 1 {
                self.erase(0, 0, self.cursor_y, self.cursor_x + 1);
            } else if first == 2 || first == 3 {
                self.erase(0, 0, self.rows, 0);
            }
        } else if action == 'K' {
            if first == 0 {
                self.erase(self.cursor_y, self.cursor_x, self.cursor_y, self.cols);
            } else if first == 1 {
                self.erase(self.cursor_y, 0, self.cursor_y, self.cursor_x + 1);
            } else if first == 2 {
                self.erase(self.cursor_y, 0, self.cursor_y, self.cols);
            }
        }
    }

    /// Performs one action of the parser.
    pub fn perform(&mut self, action: &VtAction)
        requires
            old(self).wf(),
        ensures
            final(self).grid() == grid_apply(old(self).grid(), *action),
            final(self).wf(),
    {
        match action {
            VtAction::Print(ch) => self.print(*ch),
            VtAction::Execute(byte) => self.execute(*byte),
            VtAction::CsiDispatch { params, action } => {
                let first: u16 = first_value(params, 0);
                let second: u16 = first_value(params, 1);
                self.csi_dispatch(first, second, *action)
            },
        }
    }

    /// Performs a sequence of actions in order.
    pub fn perform_all(&mut self, actions: &Vec<VtAction>)
        requires
            old(self).wf(),
        ensures
            final(self).grid() == grid_apply_all(old(self).grid(), actions@),
            final(self).wf(),
            same_size(old(self).grid(), final(self).grid()),
    {
        let ghost start = self.grid();
        let mut i: usize = 0;
        assert(actions@.take(0) =~= Seq::empty());
        while i < actions.len()
            invariant
                i <= actions@.len(),
                self.wf(),
                self.grid() == grid_apply_all(start, actions@.take(i as int)),
            decreases actions@.len() - i,
        {
            proof {
                let next = actions@.take(i + 1);
                assert(next.drop_last() =~= actions@.take(i as int));
                assert(next.last() == actions@[i as int]);
            }
            self.perform(&actions[i]);
            i += 1;
        }
        proof {
            assert(actions@.take(actions@.len() as int) =~= actions@);
            lemma_apply_all_keeps_order(start, actions@);
        }
    }
}

/// Reads the first value of parameter number `index`, 0 where there is
/// none.
pub fn first_value(params: &Vec<Vec<u16>>, index: usize) -> (value: u16)
    ensures
        value == param_value(params@, index as int),
{
    if index < params.len() && params[index].len() > 0 {
        params[index][0]
    } else {
        0
    }
}

/// `vte::Parser`, the state machine that reads the byte stream. Its state
/// is not looked into here.
#[verifier::external_type_specification]
#[verifier::external_body]
pub struct ExVtParser<const OSC_RAW_BUF_SIZE: usize>(vte::Parser<OSC_RAW_BUF_SIZE>);

/// `vte::Params`, the parameters of a sequence as the parser hands them
/// over.
#[verifier::external_type_specification]
#[verifier::external_body]
pub struct ExVtParams(vte::Params);

/// Collects the actions that the parser asks for, in order.
pub struct ActionLog {
    pub actions: Vec<VtAction>,
}

/// What a `vte::Params` holds: its parameters in order, each with its
/// subparameters in order, as `vte::Params::iter` hands them out.
pub uninterp spec fn params_of(params: vte::Params) -> Seq<Seq<u16>>;

/// Copies the parameters out of a `vte::Params` through
/// `vte::Params::iter`, which yields one slice per parameter holding that
/// parameter and its subparameters: the result holds one vector per
/// parameter, with the same values in the same order.
#[verifier::external_body]
fn collect_params(params: &vte::Params) -> (values: Vec<Vec<u16>>)
    ensures
        rows_view(values@) == params_of(*params),
{
    params.iter().map(|p| p.to_vec()).collect()
}

/// Whether `action` is the dispatch of a CSI sequence with these
/// parameters and this final character.
pub open spec fn is_csi_dispatch(action: VtAction, params: Seq<Seq<u16>>, last: char) -> bool {
    action matches VtAction::CsiDispatch { params: held, action: a } && rows_view(held@) == params
        && a == last
}

impl vte::Perform for ActionLog {
    /// Notes that a character is to be drawn.
    fn print(&mut self, c: char)
        ensures
            final(self).actions@ == old(self).actions@.push(VtAction::Print(c)),
    {
        self.actions.push(VtAction::Print(c));
    }

    /// Notes that a control is to be executed.
    fn execute(&mut self, byte: u8)
        ensures
            final(self).actions@ == old(self).actions@.push(VtAction::Execute(byte)),
    {
        self.actions.push(VtAction::Execute(byte));
    }

    /// Notes that a CSI sequence is to be dispatched, with the parameters
    /// that the parser hands over and the final character. Intermediates
    /// are not kept: no sequence that the screen acts on has any.
    fn csi_dispatch(&mut self, params: &vte::Params, _intermediates: &[u8], _ignore: bool, action: char)
        ensures
            final(self).actions@.len() == old(self).actions@.len() + 1,
            final(self).actions@.drop_last() == old(self).actions@,
            is_csi_dispatch(final(self).actions@.last(), params_of(*params), action),
    {
        let params = collect_params(params);
        self.actions.push(VtAction::CsiDispatch { params, action });
    }
}

/// Calls `vte::Parser::new`.
#[verifier::external_body]
fn new_parser() -> (parser: vte::Parser)
{
    vte::Parser::new()
}

/// The actions that a `vte::Parser` in the given state asks of its
/// performer when it is fed the bytes: in order, every character to draw,
/// every control to execute and every CSI sequence to dispatch.
pub uninterp spec fn vt_actions(parser: vte::Parser, bytes: Seq<u8>) -> Seq<VtAction>;

/// Calls `vte::Parser::advance` with the log as the performer.
///
/// Trusted: the parser calls the performer once for every action that it
/// asks for, in order, and does nothing else to it, so that the log grows by
/// the actions named by [`vt_actions`]. What the parser asks for depends on
/// its state (it may be in the middle of a sequence) and on the bytes alone.
/// Nothing is claimed of the state in which the parser is left.
#[verifier::external_body]
fn advance_parser(parser: &mut vte::Parser, log: &mut ActionLog, bytes: &[u8])
    ensures
        final(log).actions@ == old(log).actions@ + vt_actions(*old(parser), bytes@),
{
    parser.advance(log, bytes)
}

/// The screen with the size changed: cells that stay keep their content,
/// new cells are blank, and the cursor is brought back onto the grid.
pub open spec fn grid_resize(g: Grid, cols: usize, rows: usize) -> Grid {
    Grid {
        cols,
        rows,
        cursor_x: least(g.cursor_x as int, cols - 1) as usize,
        cursor_y: least(g.cursor_y as int, rows - 1) as usize,
        cells: Seq::new(
            rows as nat,
            |y: int|
                Seq::new(
                    cols as nat,
                    |x: int|
                        if y < g.cells.len() && x < g.cells[y].len() {
                            g.cells[y][x]
                        } else {
                            blank_cell()
                        },
                ),
        ),
    }
}

/// The characters of row `row`, none where the grid has no such row.
pub open spec fn line_text(cells: Seq<Seq<Cell>>, row: int) -> Seq<char> {
    if 0 <= row < cells.len() {
        Seq::new(cells[row].len(), |x: int| cells[row][x].ch)
    } else {
        Seq::empty()
    }
}

/// A VT100/ANSI terminal emulator: the parser and the screen it drives.
pub struct VtEmulator {
    /// The parser, which remembers a sequence that a call of `process` left
    /// unfinished.
    pub parser: vte::Parser,
    pub cursor_x: usize,
    pub cursor_y: usize,
    pub cols: usize,
    pub rows: usize,
    /// The grid: `rows` rows of `cols` cells.
    pub cells: Vec<Vec<Cell>>,
}

impl VtEmulator {
    /// The screen as a value.
    pub open spec fn grid(&self) -> Grid {
        Grid {
            cursor_x: self.cursor_x,
            cursor_y: self.cursor_y,
            cols: self.cols,
            rows: self.rows,
            cells: rows_view(self.cells@),
        }
    }

    /// Whether the screen is in good order.
    pub open spec fn wf(&self) -> bool {
        grid_wf(self.grid())
    }

    /// An emulator with an empty screen of the given size.
    pub fn new(cols: usize, rows: usize) -> (emulator: Self)
        requires
            cols >= 1,
            rows >= 1,
        ensures
            emulator.grid() == blank_grid(cols, rows),
            emulator.wf(),
    {
        let mut cells: Vec<Vec<Cell>> = Vec::new();
        let mut y: usize = 0;
        while y < rows
            invariant
                y <= rows,
                cells@.len() == y,
                forall|r: int| 0 <= r < y ==> (#[trigger] cells@[r])@ == blank_row(cols),
            decreases rows - y,
        {
            cells.push(make_blank_row(cols));
            y += 1;
        }
        assert(rows_view(cells@) =~= blank_grid(cols, rows).cells);
        VtEmulator { parser: new_parser(), cursor_x: 0, cursor_y: 0, cols, rows, cells }
    }

    /// Performs the given actions on the screen, in order.
    pub fn apply(&mut self, actions: &Vec<VtAction>)
        requires
            old(self).wf(),
        ensures
            final(self).grid() == grid_apply_all(old(self).grid(), actions@),
            final(self).parser == old(self).parser,
            final(self).wf(),
            same_size(old(self).grid(), final(self).grid()),
    {
        let mut performer = EmulatorPerformer {
            cursor_x: self.cursor_x,
            cursor_y: self.cursor_y,
            cols: self.cols,
            rows: self.rows,
            cells: Vec::new(),
        };
        core::mem::swap(&mut performer.cells, &mut self.cells);
        performer.perform_all(actions);
        self.cursor_x = performer.cursor_x;
        self.cursor_y = performer.cursor_y;
        core::mem::swap(&mut performer.cells, &mut self.cells);
    }

    /// Feeds raw bytes to the parser and performs what it asks for.
    ///
    /// The screen afterwards is the screen before with the actions
    /// performed, in order, that the parser asks for when it is fed the
    /// bytes in the state in which it stands (a sequence may be split
    /// between two calls). The cursor is on the grid and the grid has kept
    /// its size.
    pub fn process(&mut self, bytes: &[u8])
        requires
            old(self).wf(),
        ensures
            final(self).grid() == grid_apply_all(
                old(self).grid(),
                vt_actions(old(self).parser, bytes@),
            ),
            final(self).wf(),
            same_size(old(self).grid(), final(self).grid()),
    {
        let mut log = ActionLog { actions: Vec::new() };
        advance_parser(&mut self.parser, &mut log, bytes);
        assert(log.actions@ =~= vt_actions(old(self).parser, bytes@));
        self.apply(&log.actions);
    }

    /// Changes the size of the grid.
    pub fn resize(&mut self, cols: usize, rows: usize)
        requires
            cols >= 1,
            rows >= 1,
        ensures
            final(self).grid() == grid_resize(old(self).grid(), cols, rows),
            final(self).parser == old(self).parser,
            final(self).wf(),
    {
        let ghost before = self.grid();
        let mut cells: Vec<Vec<Cell>> = Vec::new();
        let mut y: usize = 0;
        while y < rows
            invariant
                y <= rows,
                before.cells == rows_view(self.cells@),
                cells@.len() == y,
                forall|r: int|
                    0 <= r < y ==> (#[trigger] cells@[r])@ == grid_resize(before, cols, rows).cells[r],
            decreases rows - y,
        {
            let mut row: Vec<Cell> = Vec::new();
            let mut x: usize = 0;
            while x < cols
                invariant
                    x <= cols,
                    y < rows,
                    before.cells == rows_view(self.cells@),
                    row@ == grid_resize(before, cols, rows).cells[y as int].take(x as int),
                decreases cols - x,
            {
                let cell: Cell = if y < self.cells.len() && x < self.cells[y].len() {
                    assert(before.cells[y as int] == self.cells@[y as int]@);
                    self.cells[y][x]
                } else {
                    Cell::default()
                };
                row.push(cell);
                assert(row@ =~= grid_resize(before, cols, rows).cells[y as int].take(x + 1));
                x += 1;
            }
            assert(row@ =~= grid_resize(before, cols, rows).cells[y as int]);
            cells.push(row);
            y += 1;
        }
        self.cells = cells;
        self.cols = cols;
        self.rows = rows;
        if self.cursor_x >= cols {
            self.cursor_x = cols - 1;
        }
        if self.cursor_y >= rows {
            self.cursor_y = rows - 1;
        }
        assert(self.grid().cells =~= grid_resize(before, cols, rows).cells);
    }

    /// The text of one row of the screen; empty where there is no such row.
    pub fn get_line_text(&self, row: usize) -> (text: String)
        ensures
            text@ == line_text(self.grid().cells, row as int),
    {
        let mut text = String::new();
        if row < self.cells.len() {
            let line = &self.cells[row];
            assert(self.grid().cells[row as int] == line@);
            let mut x: usize = 0;
            while x < line.len()
                invariant
                    x <= line@.len(),
                    row < self.cells@.len(),
                    self.grid().cells[row as int] == line@,
                    text@ == line_text(self.grid().cells, row as int).take(x as int),
                decreases line@.len() - x,
            {
                text.push(line[x].ch);
                assert(text@ =~= line_text(self.grid().cells, row as int).take(x + 1));
                x += 1;
            }
            assert(text@ =~= line_text(self.grid().cells, row as int));
        } else {
            assert(text@ =~= line_text(self.grid().cells, row as int));
        }
        text
    }
}

} // verus!
