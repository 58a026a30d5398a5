//! Terminal sessions: the VT screen model, the screen of a session and the
//! decisions around a pseudo-terminal.

pub mod emulator;
pub mod pty;

use vstd::prelude::*;
use crate::rows::rows_view;

verus! {

/// The characters of a grid of the given size: those of `cells` where it
/// has them, spaces elsewhere.
pub open spec fn reshaped(cells: Seq<Seq<char>>, cols: u16, rows: u16) -> Seq<Seq<char>> {
    Seq::new(
        rows as nat,
        |y: int|
            Seq::new(
                cols as nat,
                |x: int|
                    if y < cells.len() && x < cells[y].len() {
                        cells[y][x]
                    } else {
                        ' '
                    },
            ),
    )
}

/// What a terminal session shows: the size of its grid, the lines that
/// have scrolled out of it, and the characters on it.
pub struct SessionScreen {
    pub cols: u16,
    pub rows: u16,
    /// Lines that have left the screen, oldest first.
    pub scrollback: Vec<String>,
    /// The grid: `rows` rows of `cols` characters.
    pub screen: Vec<Vec<char>>,
}

fn reshape(cells: &Vec<Vec<char>>, cols: u16, rows: u16) -> (out: Vec<Vec<char>>)
    ensures
        rows_view(out@) == reshaped(rows_view(cells@), cols, rows),
{
    let ghost want = reshaped(rows_view(cells@), cols, rows);
    let mut out: Vec<Vec<char>> = Vec::new();
    let mut y: usize = 0;
    while y < rows as usize
        invariant
            y <= rows,
            want == reshaped(rows_view(cells@), cols, rows),
            out@.len() == y,
            forall|r: int| 0 <= r < y ==> (#[trigger] out@[r])@ == want[r],
        decreases rows - y,
    {
        let mut row: Vec<char> = Vec::new();
        let mut x: usize = 0;
        while x < cols as usize
            invariant
                x <= cols,
                y < rows,
                want == reshaped(rows_view(cells@), cols, rows),
                row@ == want[y as int].take(x as int),
            decreases cols - x,
        {
            let c: char = if y < cells.len() && x < cells[y].len() {
                assert(rows_view(cells@)[y as int] == cells@[y as int]@);
                cells[y][x]
            } else {
                ' '
            };
            row.push(c);
            assert(row@ =~= want[y as int].take(x + 1));
            x += 1;
        }
        assert(row@ =~= want[y as int]);
        out.push(row);
        y += 1;
    }
    assert(rows_view(out@) =~= want);
    out
}

impl SessionScreen {
    /// The screen of a new session: a grid of spaces, nothing scrolled out.
    pub fn new(cols: u16, rows: u16) -> (screen: Self)
        ensures
            screen.cols == cols,
            screen.rows == rows,
            screen.scrollback@ == Seq::<String>::empty(),
            rows_view(screen.screen@) == reshaped(Seq::empty(), cols, rows),
    {
        let empty: Vec<Vec<char>> = Vec::new();
        assert(rows_view(empty@) =~= Seq::<Seq<char>>::empty());
        SessionScreen { cols, rows, scrollback: Vec::new(), screen: reshape(&empty, cols, rows) }
    }

    /// Changes the size of the grid: characters that stay keep their
    /// place, new places hold spaces.
    pub fn resize(&mut self, cols: u16, rows: u16)
        ensures
            final(self).cols == cols,
            final(self).rows == rows,
            final(self).scrollback == old(self).scrollback,
            rows_view(final(self).screen@) == reshaped(rows_view(old(self).screen@), cols, rows),
    {
        let screen = reshape(&self.screen, cols, rows);
        self.screen = screen;
        self.cols = cols;
        self.rows = rows;
    }
}

} // verus!
