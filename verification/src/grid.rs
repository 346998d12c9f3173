//! The board data model: cells carrying a directional roon tag and a ball
//! edge flag, rows of 32 cells, and the 32x32 loom with its placement and
//! tick operations.

use vstd::prelude::*;

verus! {

/// Number of cells per row, and of rows per board.
pub const SIDE: usize = 32;

/// Width of one cell in pixels, for mapping pointer positions to columns.
pub const CELL_WIDTH: u32 = 10;

/// Height of one cell in pixels, for mapping pointer positions to rows.
pub const CELL_HEIGHT: u32 = 20;

/// A directional marking a marble could follow; stored per cell, with no
/// behavioural effect beyond storage.
#[derive(Clone, Copy, PartialEq, Eq, Structural, Debug)]
pub enum Roon {
    Up,
    Down,
    Left,
    Right,
    Nop,
}

impl Default for Roon {
    fn default() -> (r: Roon)
        ensures
            r == Roon::Nop,
    {
        Roon::Nop
    }
}

/// One cell of the board: a roon tag plus a flag marking whether this cell is
/// the left anchor of a two-cell-wide ball.
#[derive(Clone, Copy, PartialEq, Eq, Structural, Debug)]
pub struct Cell {
    pub roon: Roon,
    /// True iff this cell is the left edge of a ball that also covers the
    /// next column of the same row.
    pub ball: bool,
}

/// The cell every board position starts out as.
pub open spec fn default_cell() -> Cell {
    Cell { roon: Roon::Nop, ball: false }
}

impl Default for Cell {
    fn default() -> (c: Cell)
        ensures
            c == default_cell(),
    {
        Cell { roon: Roon::Nop, ball: false }
    }
}

/// One row of the board: exactly `SIDE` cells, left to right.
#[derive(Debug)]
pub struct Row {
    pub cells: Vec<Cell>,
}

impl Row {
    /// A row is well formed when it holds exactly `SIDE` cells.
    pub open spec fn wf(&self) -> bool {
        self.cells@.len() == SIDE
    }
}

impl Default for Row {
    fn default() -> (r: Row)
        ensures
            r.wf(),
            forall|c: int| 0 <= c < SIDE ==> r.cells@[c] == default_cell(),
    {
        let mut cells: Vec<Cell> = Vec::new();
        let mut c: usize = 0;
        while c < SIDE
            invariant
                c <= SIDE,
                cells@.len() == c,
                forall|i: int| 0 <= i < c ==> cells@[i] == default_cell(),
            decreases SIDE - c,
        {
            cells.push(Cell { roon: Roon::Nop, ball: false });
            c = c + 1;
        }
        Row { cells }
    }
}

/// The board: exactly `SIDE` rows, top to bottom, plus a flag that only
/// alternates the visual row highlight and has no simulation meaning.
#[derive(Debug)]
pub struct Loom {
    pub rows: Vec<Row>,
    /// `false` if even rows are highlighted, `true` if odd rows are.
    pub active: bool,
}

/// The grid of a board with every cell at its default.
pub open spec fn blank_grid() -> Seq<Seq<Cell>> {
    Seq::new(SIDE as nat, |r: int| Seq::new(SIDE as nat, |c: int| default_cell()))
}

impl Loom {
    /// A board is well formed when it holds exactly `SIDE` well-formed rows.
    pub open spec fn wf(&self) -> bool {
        &&& self.rows@.len() == SIDE
        &&& forall|r: int| 0 <= r < SIDE ==> (#[trigger] self.rows@[r]).wf()
    }

    /// The board's grid as a sequence of rows of cells.
    pub open spec fn grid(&self) -> Seq<Seq<Cell>> {
        self.rows@.map_values(|row: Row| row.cells@)
    }

    /// The cell at row `r`, column `c`.
    pub open spec fn cell_at(&self, r: int, c: int) -> Cell {
        self.rows@[r].cells@[c]
    }

    /// Reads one cell of a well-formed board.
    pub fn cell(&self, r: usize, c: usize) -> (cell: Cell)
        requires
            self.wf(),
            r < SIDE,
            c < SIDE,
        ensures
            cell == self.cell_at(r as int, c as int),
            cell == self.grid()[r as int][c as int],
    {
        self.rows[r].cells[c]
    }

    /// Maps a pointer position (in pixels, already truncated to whole
    /// pixels) to a (column, row) index by flooring division with the fixed
    /// cell width and height. No bounds clamping: callers check the result
    /// against the board extents.
    pub fn index(&self, x: u32, y: u32) -> (rc: (usize, usize))
        ensures
            rc.0 == x as int / CELL_WIDTH as int,
            rc.1 == y as int / CELL_HEIGHT as int,
    {
        ((x / CELL_WIDTH) as usize, (y / CELL_HEIGHT) as usize)
    }
}

/// A grid is well formed when it is exactly `SIDE` rows of `SIDE` cells.
pub open spec fn wf_grid(g: Seq<Seq<Cell>>) -> bool {
    &&& g.len() == SIDE
    &&& forall|r: int| 0 <= r < SIDE ==> (#[trigger] g[r]).len() == SIDE
}

/// The grid `g` with the ball flag of the cell at row `r`, column `c`
/// replaced by `b`; the cell's roon tag and every other cell are kept.
pub open spec fn grid_set_ball(g: Seq<Seq<Cell>>, r: int, c: int, b: bool) -> Seq<Seq<Cell>> {
    g.update(r, g[r].update(c, Cell { roon: g[r][c].roon, ball: b }))
}

/// The outcome of toggling a ball at column `col`, row `row` of grid `g`:
/// the grid afterwards, and the placement result. An index outside the board
/// succeeds as a no-op; a cell or left neighbour already anchoring a ball is
/// cleared; a ball anchored immediately to the right rejects the placement;
/// otherwise the cell becomes a ball anchor.
pub open spec fn toggle_outcome(g: Seq<Seq<Cell>>, col: int, row: int) -> (Seq<Seq<Cell>>, Result<
    (),
    (),
>) {
    if !(0 <= row < SIDE && 0 <= col < SIDE) {
        (g, Ok(()))
    } else if g[row][col].ball {
        (grid_set_ball(g, row, col, false), Ok(()))
    } else if col > 0 && g[row][col - 1].ball {
        (grid_set_ball(g, row, col - 1, false), Ok(()))
    } else if col + 1 < SIDE && g[row][col + 1].ball {
        (g, Err(()))
    } else {
        (grid_set_ball(g, row, col, true), Ok(()))
    }
}

impl Loom {
    /// Writes the ball flag of one cell, keeping its roon tag and every
    /// other cell.
    fn set_ball(&mut self, r: usize, c: usize, b: bool)
        requires
            old(self).wf(),
            r < SIDE,
            c < SIDE,
        ensures
            final(self).wf(),
            final(self).active == old(self).active,
            final(self).grid() == grid_set_ball(old(self).grid(), r as int, c as int, b),
    {
        let roon = self.rows[r].cells[c].roon;
        self.rows[r].cells[c] = Cell { roon, ball: b };
        proof {
            assert(self.grid() =~~= grid_set_ball(old(self).grid(), r as int, c as int, b));
        }
    }

    /// Toggles a ball at the cell under the pointer position (`x`, `y`).
    ///
    /// The position is mapped to a cell index as `index` does; an index
    /// outside the board makes the call a successful no-op. A ball anchored
    /// at the cell, or at its left neighbour (whose span covers the cell),
    /// is removed. Placing a new ball is rejected exactly when the right
    /// neighbour already anchors a ball; otherwise the cell becomes the
    /// anchor of a new ball.
    pub fn toggle_ball(&mut self, x: u32, y: u32) -> (res: Result<(), ()>)
        requires
            old(self).wf(),
        ensures
            final(self).wf(),
            final(self).active == old(self).active,
            ({
                let col = x as int / CELL_WIDTH as int;
                let row = y as int / CELL_HEIGHT as int;
                &&& final(self).grid() == toggle_outcome(old(self).grid(), col, row).0
                &&& res == toggle_outcome(old(self).grid(), col, row).1
            }),
    {
        let (col, row) = self.index(x, y);
        if row >= SIDE || col >= SIDE {
            return Ok(());
        }
        if self.rows[row].cells[col].ball {
            self.set_ball(row, col, false);
            return Ok(());
        }
        if col > 0 && self.rows[row].cells[col - 1].ball {
            self.set_ball(row, col - 1, false);
            return Ok(());
        }
        if col + 1 < SIDE && self.rows[row].cells[col + 1].ball {
            return Err(());
        }
        self.set_ball(row, col, true);
        Ok(())
    }

    /// Inserts a ball at the cell under the pointer position (`x`, `y`)
    /// under the window policy, the non-toggling alternative to
    /// `toggle_ball`: the position is mapped as `index` maps it, an index
    /// outside the board is a no-op, and the placement is rejected silently
    /// — nothing is reported and nothing changes — when any cell within one
    /// column of the target already anchors a ball.
    pub fn insert_ball(&mut self, x: u32, y: u32)
        requires
            old(self).wf(),
        ensures
            final(self).wf(),
            final(self).active == old(self).active,
            final(self).grid() == insert_outcome(
                old(self).grid(),
                x as int / CELL_WIDTH as int,
                y as int / CELL_HEIGHT as int,
            ),
    {
        let (col, row) = self.index(x, y);
        if row >= SIDE || col >= SIDE {
            return;
        }
        if self.rows[row].cells[col].ball {
            return;
        }
        if col > 0 && self.rows[row].cells[col - 1].ball {
            return;
        }
        if col + 1 < SIDE && self.rows[row].cells[col + 1].ball {
            return;
        }
        self.set_ball(row, col, true);
    }

    /// Advances the board by one simulation step, double-buffered: the rows
    /// are copied into a fresh buffer, the next state is computed there from
    /// the unchanged snapshot, and the buffer is committed. The transition
    /// rule itself is deliberately left open, so the committed state equals
    /// the snapshot.
    pub fn tick(&mut self)
        requires
            old(self).wf(),
        ensures
            final(self).wf(),
            final(self).grid() == old(self).grid(),
            final(self).active == old(self).active,
    {
        let ghost orig = *self;
        let mut new_rows: Vec<Row> = Vec::new();
        let mut r: usize = 0;
        while r < SIDE
            invariant
                *self == orig,
                orig.wf(),
                r <= SIDE,
                new_rows@.len() == r,
                forall|i: int| 0 <= i < r ==> (#[trigger] new_rows@[i]).cells@
                    == orig.rows@[i].cells@,
            decreases SIDE - r,
        {
            let mut cells: Vec<Cell> = Vec::new();
            let mut c: usize = 0;
            while c < SIDE
                invariant
                    *self == orig,
                    orig.wf(),
                    r < SIDE,
                    c <= SIDE,
                    cells@.len() == c,
                    forall|j: int| 0 <= j < c ==> cells@[j] == orig.rows@[r as int].cells@[j],
                decreases SIDE - c,
            {
                cells.push(self.rows[r].cells[c]);
                c = c + 1;
            }
            proof {
                assert(cells@ =~= orig.rows@[r as int].cells@);
            }
            new_rows.push(Row { cells });
            r = r + 1;
        }
        self.rows = new_rows;
        proof {
            assert(self.grid() =~~= orig.grid());
        }
    }
}

/// Whether placing a ball at column `col`, row `row` of grid `g` is blocked
/// under the window policy: some cell in the inclusive range
/// `[col - 1, col + 1]`, clamped to the row, already anchors a ball.
pub open spec fn window_blocked(g: Seq<Seq<Cell>>, col: int, row: int) -> bool {
    ||| g[row][col].ball
    ||| col > 0 && g[row][col - 1].ball
    ||| col + 1 < SIDE && g[row][col + 1].ball
}

/// The grid after inserting a ball at column `col`, row `row` under the
/// window policy: an index outside the board, or any ball anchored within
/// one column of the cell, leaves the grid unchanged; otherwise the cell
/// becomes a ball anchor.
pub open spec fn insert_outcome(g: Seq<Seq<Cell>>, col: int, row: int) -> Seq<Seq<Cell>> {
    if !(0 <= row < SIDE && 0 <= col < SIDE) {
        g
    } else if window_blocked(g, col, row) {
        g
    } else {
        grid_set_ball(g, row, col, true)
    }
}

/// No two balls overlap: a ball anchored at column `c` covers columns `c`
/// and `c + 1` of its row, so the cell at `c + 1` never anchors one itself.
pub open spec fn no_overlap(g: Seq<Seq<Cell>>) -> bool {
    forall|r: int, c: int|
        0 <= r < g.len() && 0 <= c && c + 1 < g[r].len() && (#[trigger] g[r][c]).ball
            ==> !g[r][c + 1].ball
}

/// Toggling an empty cell with no ball edge on either neighbour succeeds and
/// sets exactly that cell's ball edge: its roon tag and every other cell of
/// the grid are left as they were.
pub proof fn lemma_toggle_places(g: Seq<Seq<Cell>>, col: int, row: int)
    requires
        wf_grid(g),
        0 <= row < SIDE,
        0 <= col < SIDE,
        !g[row][col].ball,
        col > 0 ==> !g[row][col - 1].ball,
        col + 1 < SIDE ==> !g[row][col + 1].ball,
    ensures
        toggle_outcome(g, col, row).1 == Ok::<(), ()>(()),
        toggle_outcome(g, col, row).0[row][col].ball,
        toggle_outcome(g, col, row).0[row][col].roon == g[row][col].roon,
        forall|r: int, c: int|
            0 <= r < SIDE && 0 <= c < SIDE && !(r == row && c == col)
                ==> toggle_outcome(g, col, row).0[r][c] == g[r][c],
{
}

/// Toggling a cell that already anchors a ball clears that anchor and
/// leaves every other cell, and the cell's own roon tag, untouched.
pub proof fn lemma_toggle_clears(g: Seq<Seq<Cell>>, col: int, row: int)
    requires
        wf_grid(g),
        0 <= row < SIDE,
        0 <= col < SIDE,
        g[row][col].ball,
    ensures
        toggle_outcome(g, col, row).1 == Ok::<(), ()>(()),
        !toggle_outcome(g, col, row).0[row][col].ball,
        toggle_outcome(g, col, row).0[row][col].roon == g[row][col].roon,
        forall|r: int, c: int|
            0 <= r < SIDE && 0 <= c < SIDE && !(r == row && c == col)
                ==> toggle_outcome(g, col, row).0[r][c] == g[r][c],
{
}

/// Placing a ball whose right neighbour already anchors one is rejected and
/// changes nothing.
pub proof fn lemma_toggle_rejects(g: Seq<Seq<Cell>>, col: int, row: int)
    requires
        wf_grid(g),
        0 <= row < SIDE,
        0 <= col < SIDE,
        !g[row][col].ball,
        col > 0 ==> !g[row][col - 1].ball,
        col + 1 < SIDE,
        g[row][col + 1].ball,
    ensures
        toggle_outcome(g, col, row).1 == Err::<(), ()>(()),
        toggle_outcome(g, col, row).0 == g,
{
}

/// Toggling preserves the non-overlap rule: on a grid where no two balls
/// overlap, the grid after any toggle keeps that property.
pub proof fn lemma_toggle_preserves_no_overlap(g: Seq<Seq<Cell>>, col: int, row: int)
    requires
        wf_grid(g),
        no_overlap(g),
    ensures
        no_overlap(toggle_outcome(g, col, row).0),
{
    let g2 = toggle_outcome(g, col, row).0;
    assert forall|r: int, c: int|
        0 <= r < g2.len() && 0 <= c && c + 1 < g2[r].len() && (#[trigger] g2[r][c]).ball implies !g2[r][c
        + 1].ball by {
        if 0 <= row < SIDE && 0 <= col < SIDE {
            if g[row][col].ball || (col > 0 && g[row][col - 1].ball) {
                let cleared: int = if g[row][col].ball {
                    col
                } else {
                    col - 1
                };
                assert(g2 == grid_set_ball(g, row, cleared, false));
                assert(g2[r][c].ball ==> g[r][c].ball);
            } else if col + 1 < SIDE && g[row][col + 1].ball {
            } else {
                assert(g2 == grid_set_ball(g, row, col, true));
                if r == row && c + 1 == col {
                    assert(g[r][c].ball);
                    assert(col > 0 && g[row][col - 1].ball);
                }
            }
        }
    }
}

/// On a grid where no two balls overlap, toggling the same in-bounds cell
/// twice restores the grid, whenever the first toggle acts on the cell
/// itself: it either clears the ball anchored there or places a new one.
/// (When the first toggle clears a ball anchored at the left neighbour, the
/// second toggle acts on a different cell, so nothing of the kind is owed.)
#[verifier::rlimit(50)]
pub proof fn lemma_toggle_twice_restores(g: Seq<Seq<Cell>>, col: int, row: int)
    requires
        wf_grid(g),
        no_overlap(g),
        0 <= row < SIDE,
        0 <= col < SIDE,
        g[row][col].ball || !(col > 0 && g[row][col - 1].ball),
    ensures
        toggle_outcome(toggle_outcome(g, col, row).0, col, row).0 == g,
{
    let g2 = toggle_outcome(g, col, row).0;
    if g[row][col].ball {
        assert(!(col > 0 && g[row][col - 1].ball));
        assert(!(col + 1 < SIDE && g[row][col + 1].ball));
        assert(g2 == grid_set_ball(g, row, col, false));
        assert(grid_set_ball(g2, row, col, true)[row] =~= g[row]);
        assert(grid_set_ball(g2, row, col, true) =~~= g);
    } else if col > 0 && g[row][col - 1].ball {
        assert(false);
    } else if col + 1 < SIDE && g[row][col + 1].ball {
        assert(g2 == g);
    } else {
        assert(g2 == grid_set_ball(g, row, col, true));
        assert(g2[row][col].ball);
        assert(grid_set_ball(g2, row, col, false)[row] =~= g[row]);
        assert(grid_set_ball(g2, row, col, false) =~~= g);
    }
}

/// Inserting under the window policy preserves the non-overlap rule.
pub proof fn lemma_insert_preserves_no_overlap(g: Seq<Seq<Cell>>, col: int, row: int)
    requires
        wf_grid(g),
        no_overlap(g),
    ensures
        no_overlap(insert_outcome(g, col, row)),
{
    let g2 = insert_outcome(g, col, row);
    assert forall|r: int, c: int|
        0 <= r < g2.len() && 0 <= c && c + 1 < g2[r].len() && (#[trigger] g2[r][c]).ball implies !g2[r][c
        + 1].ball by {
        if 0 <= row < SIDE && 0 <= col < SIDE && !window_blocked(g, col, row) {
            if r == row && c + 1 == col {
                assert(g[r][c].ball);
            }
        }
    }
}

impl Default for Loom {
    fn default() -> (l: Loom)
        ensures
            l.wf(),
            l.grid() == blank_grid(),
            !l.active,
    {
        let mut rows: Vec<Row> = Vec::new();
        let mut r: usize = 0;
        while r < SIDE
            invariant
                r <= SIDE,
                rows@.len() == r,
                forall|i: int| 0 <= i < r ==> (#[trigger] rows@[i]).wf()
                    && forall|c: int| 0 <= c < SIDE ==> rows@[i].cells@[c] == default_cell(),
            decreases SIDE - r,
        {
            rows.push(Row::default());
            r = r + 1;
        }
        let l = Loom { rows, active: false };
        proof {
            assert(l.grid() =~~= blank_grid());
        }
        l
    }
}

} // verus!
