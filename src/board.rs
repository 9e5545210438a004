use vstd::prelude::*;

verus! {

/// Width of the playfield in cells.
pub const WIDTH: usize = 10;

/// Number of visible rows.
pub const HEIGHT: usize = 20;

/// Hidden rows above the visible area, used for spawning and top-out detection.
pub const BUFFER_HEIGHT: usize = 4;

/// Total number of stored rows.
pub const TOTAL_HEIGHT: usize = 24;

/// Number of stored cells.
pub const CELL_COUNT: usize = 240;

/// Content of one board cell: empty, or the colour of a locked block.
#[derive(Clone, Copy, PartialEq, Eq, Debug, Structural)]
pub enum Cell {
    Empty,
    I,
    O,
    T,
    S,
    Z,
    J,
    L,
}

/// Small integer tag of a cell (0 for empty, 1..=7 for the colours).
pub open spec fn cell_code(c: Cell) -> u8 {
    match c {
        Cell::Empty => 0,
        Cell::I => 1,
        Cell::O => 2,
        Cell::T => 3,
        Cell::S => 4,
        Cell::Z => 5,
        Cell::J => 6,
        Cell::L => 7,
    }
}

impl Cell {
    pub fn is_empty(self) -> (r: bool)
        ensures
            r == (self == Cell::Empty),
    {
        matches!(self, Cell::Empty)
    }

    /// The integer tag of this cell.
    pub fn code(self) -> (r: u8)
        ensures
            r == cell_code(self),
    {
        match self {
            Cell::Empty => 0,
            Cell::I => 1,
            Cell::O => 2,
            Cell::T => 3,
            Cell::S => 4,
            Cell::Z => 5,
            Cell::J => 6,
            Cell::L => 7,
        }
    }
}

/// Whether `(x, y)` addresses a stored cell.
pub open spec fn in_bounds(x: int, y: int) -> bool {
    0 <= x < WIDTH && 0 <= y < TOTAL_HEIGHT
}

/// Position of cell `(x, y)` in the row-major cell sequence (row 0 is the bottom).
pub open spec fn cell_index(x: int, y: int) -> int {
    y * 10 + x
}

/// Row `y` of a cell sequence.
pub open spec fn row_of(cells: Seq<Cell>, y: int) -> Seq<Cell> {
    cells.subrange(y * 10, y * 10 + 10)
}

/// The rows of a cell sequence, bottom first.
pub open spec fn rows_of(cells: Seq<Cell>) -> Seq<Seq<Cell>> {
    Seq::new(TOTAL_HEIGHT as nat, |y: int| row_of(cells, y))
}

/// A row is full when none of its cells is empty.
pub open spec fn row_full(row: Seq<Cell>) -> bool {
    forall|i: int| 0 <= i < row.len() ==> row[i] != Cell::Empty
}

/// The rows that are not full, in their original order.
pub open spec fn kept_rows(rows: Seq<Seq<Cell>>) -> Seq<Seq<Cell>>
    decreases rows.len(),
{
    if rows.len() == 0 {
        Seq::empty()
    } else {
        let rest = kept_rows(rows.drop_last());
        if row_full(rows.last()) {
            rest
        } else {
            rest.push(rows.last())
        }
    }
}

pub open spec fn empty_row() -> Seq<Cell> {
    Seq::new(WIDTH as nat, |i: int| Cell::Empty)
}

/// Rows after removing the full ones: the others slide down in order and
/// empty rows refill the top.
pub open spec fn cleared_rows(rows: Seq<Seq<Cell>>) -> Seq<Seq<Cell>> {
    let kept = kept_rows(rows);
    kept + Seq::new((rows.len() - kept.len()) as nat, |i: int| empty_row())
}

/// The cells after writing `cell` at `(x, y)`; out-of-range positions change nothing.
pub open spec fn set_cell(cells: Seq<Cell>, x: int, y: int, cell: Cell) -> Seq<Cell> {
    if in_bounds(x, y) {
        cells.update(cell_index(x, y), cell)
    } else {
        cells
    }
}

/// Integer view of a sequence of coordinate pairs.
pub open spec fn int_pairs(s: Seq<(i32, i32)>) -> Seq<(int, int)> {
    s.map_values(|p: (i32, i32)| (p.0 as int, p.1 as int))
}

/// The cells after writing `cell` at each position in turn.
pub open spec fn lock_positions(cells: Seq<Cell>, ps: Seq<(int, int)>, cell: Cell) -> Seq<Cell>
    decreases ps.len(),
{
    if ps.len() == 0 {
        cells
    } else {
        let before = lock_positions(cells, ps.drop_last(), cell);
        set_cell(before, ps.last().0, ps.last().1, cell)
    }
}

/// Whether a block may occupy `(x, y)`: inside the side walls, not below the
/// floor, and either above the stored rows or on an empty cell.
pub open spec fn position_free(cells: Seq<Cell>, x: int, y: int) -> bool {
    0 <= x < WIDTH && 0 <= y && (y >= TOTAL_HEIGHT || cells[cell_index(x, y)] == Cell::Empty)
}

/// Whether every position of `ps` is free.
pub open spec fn all_free(cells: Seq<Cell>, ps: Seq<(int, int)>) -> bool {
    forall|i: int| 0 <= i < ps.len() ==> position_free(cells, #[trigger] ps[i].0, ps[i].1)
}

/// Whether some cell of the hidden rows is occupied.
pub open spec fn topped_out(cells: Seq<Cell>) -> bool {
    exists|x: int, y: int|
        0 <= x < WIDTH && HEIGHT <= y < TOTAL_HEIGHT && cells[cell_index(x, y)] != Cell::Empty
}

/// Kept rows are no more than the rows, and are among them.
pub proof fn lemma_kept_rows_shape(rows: Seq<Seq<Cell>>)
    ensures
        kept_rows(rows).len() <= rows.len(),
        forall|k: int|
            0 <= k < kept_rows(rows).len() ==> exists|j: int|
                0 <= j < rows.len() && #[trigger] kept_rows(rows)[k] == rows[j],
    decreases rows.len(),
{
    if rows.len() > 0 {
        let rest = rows.drop_last();
        lemma_kept_rows_shape(rest);
        assert forall|k: int| 0 <= k < kept_rows(rows).len() implies exists|j: int|
            0 <= j < rows.len() && #[trigger] kept_rows(rows)[k] == rows[j] by {
            if k < kept_rows(rest).len() {
                let j = choose|j: int| 0 <= j < rest.len() && kept_rows(rest)[k] == rest[j];
                assert(kept_rows(rows)[k] == rows[j]);
            } else {
                assert(kept_rows(rows)[k] == rows[rows.len() - 1]);
            }
        }
    }
}

/// The playfield: `TOTAL_HEIGHT` rows of `WIDTH` cells, row 0 at the bottom.
#[derive(Clone, Debug)]
pub struct Board {
    grid: Vec<Cell>,
}

impl View for Board {
    type V = Seq<Cell>;

    closed spec fn view(&self) -> Seq<Cell> {
        self.grid@
    }
}

impl Default for Board {
    fn default() -> (r: Board)
        ensures
            r.wf(),
            r.is_empty_board(),
    {
        Board::new()
    }
}

impl Board {
    pub open spec fn wf(&self) -> bool {
        self@.len() == CELL_COUNT
    }

    /// The stored cell at `(x, y)`, if the position is on the board.
    pub open spec fn cell(&self, x: int, y: int) -> Option<Cell> {
        if in_bounds(x, y) {
            Some(self@[cell_index(x, y)])
        } else {
            None
        }
    }

    pub open spec fn is_empty_board(&self) -> bool {
        forall|i: int| 0 <= i < self@.len() ==> self@[i] == Cell::Empty
    }

    pub fn new() -> (r: Board)
        ensures
            r.wf(),
            r.is_empty_board(),
    {
        let mut grid: Vec<Cell> = Vec::new();
        let mut i: usize = 0;
        while i < CELL_COUNT
            invariant
                i <= CELL_COUNT,
                grid@.len() == i,
                forall|j: int| 0 <= j < i ==> grid@[j] == Cell::Empty,
            decreases CELL_COUNT - i,
        {
            grid.push(Cell::Empty);
            i = i + 1;
        }
        Board { grid }
    }

    pub fn get(&self, x: i32, y: i32) -> (r: Option<Cell>)
        requires
            self.wf(),
        ensures
            r == self.cell(x as int, y as int),
    {
        if x < 0 || x >= WIDTH as i32 || y < 0 || y >= TOTAL_HEIGHT as i32 {
            None
        } else {
            Some(self.grid[(y as usize) * WIDTH + x as usize])
        }
    }

    pub fn set(&mut self, x: i32, y: i32, cell: Cell)
        requires
            old(self).wf(),
        ensures
            final(self).wf(),
            final(self)@ == set_cell(old(self)@, x as int, y as int, cell),
    {
        if x >= 0 && x < WIDTH as i32 && y >= 0 && y < TOTAL_HEIGHT as i32 {
            self.grid.set((y as usize) * WIDTH + x as usize, cell);
        }
    }

    /// Whether a block may occupy `(x, y)` (see `position_free`).
    pub fn is_valid_position(&self, x: i32, y: i32) -> (r: bool)
        requires
            self.wf(),
        ensures
            r == position_free(self@, x as int, y as int),
    {
        if x < 0 || x >= WIDTH as i32 || y < 0 {
            return false;
        }
        if y >= TOTAL_HEIGHT as i32 {
            return true;
        }
        self.grid[(y as usize) * WIDTH + x as usize].is_empty()
    }

    /// Whether any of `positions` is not free.
    pub fn check_collision(&self, positions: &[(i32, i32)]) -> (r: bool)
        requires
            self.wf(),
        ensures
            r == !all_free(self@, int_pairs(positions@)),
    {
        let mut i: usize = 0;
        while i < positions.len()
            invariant
                self.wf(),
                i <= positions@.len(),
                forall|j: int|
                    0 <= j < i ==> position_free(self@, #[trigger] int_pairs(positions@)[j].0, int_pairs(positions@)[j].1),
            decreases positions@.len() - i,
        {
            let (x, y) = positions[i];
            if !self.is_valid_position(x, y) {
                assert(int_pairs(positions@)[i as int] == (x as int, y as int));
                return true;
            }
            i = i + 1;
        }
        false
    }

    /// Writes `cell` at each of `positions`, in order; positions off the board are skipped.
    pub fn lock_cells(&mut self, positions: &[(i32, i32)], cell: Cell)
        requires
            old(self).wf(),
        ensures
            final(self).wf(),
            final(self)@ == lock_positions(old(self)@, int_pairs(positions@), cell),
    {
        let mut i: usize = 0;
        while i < positions.len()
            invariant
                self.wf(),
                i <= positions@.len(),
                self@ == lock_positions(old(self)@, int_pairs(positions@).take(i as int), cell),
            decreases positions@.len() - i,
        {
            let (x, y) = positions[i];
            assert(int_pairs(positions@).take(i as int + 1).drop_last() =~= int_pairs(positions@).take(i as int));
            self.set(x, y, cell);
            i = i + 1;
        }
        assert(int_pairs(positions@).take(positions@.len() as int) =~= int_pairs(positions@));
    }

    /// Removes every full row, lets the rows above slide down in order, refills
    /// the top with empty rows, and returns the number of rows removed.
    pub fn clear_lines(&mut self) -> (r: u32)
        requires
            old(self).wf(),
        ensures
            final(self).wf(),
            rows_of(final(self)@) == cleared_rows(rows_of(old(self)@)),
            r == TOTAL_HEIGHT - kept_rows(rows_of(old(self)@)).len(),
    {
        let ghost old_rows = rows_of(self@);
        let mut cleared: u32 = 0;
        let mut write_row: usize = 0;
        let mut read_row: usize = 0;
        while read_row < TOTAL_HEIGHT
            invariant
                self.wf(),
                old(self).wf(),
                old_rows == rows_of(old(self)@),
                write_row <= read_row <= TOTAL_HEIGHT,
                write_row == kept_rows(old_rows.take(read_row as int)).len(),
                cleared == read_row - write_row,
                forall|w: int, x: int|
                    0 <= w < write_row && 0 <= x < WIDTH ==> self@[cell_index(x, w)]
                        == kept_rows(old_rows.take(read_row as int))[w][x],
                forall|y: int, x: int|
                    read_row <= y < TOTAL_HEIGHT && 0 <= x < WIDTH ==> self@[cell_index(x, y)]
                        == old(self)@[cell_index(x, y)],
            decreases TOTAL_HEIGHT - read_row,
        {
            let ghost before = kept_rows(old_rows.take(read_row as int));
            assert(old_rows.take(read_row as int + 1).drop_last() =~= old_rows.take(read_row as int));
            let base = read_row * WIDTH;
            let mut is_full = true;
            let mut x: usize = 0;
            while x < WIDTH
                invariant
                    self.wf(),
                    x <= WIDTH,
                    base == read_row * 10,
                    read_row < TOTAL_HEIGHT,
                    is_full == (forall|j: int|
                        0 <= j < x ==> self@[cell_index(j, read_row as int)] != Cell::Empty),
                decreases WIDTH - x,
            {
                assert(self@[cell_index(x as int, read_row as int)] == self.grid@[base + x]);
                if self.grid[base + x].is_empty() {
                    is_full = false;
                }
                x = x + 1;
            }
            assert(old_rows.take(read_row as int + 1).last() == old_rows[read_row as int]);
            assert forall|j: int| 0 <= j < WIDTH implies old_rows[read_row as int][j] == self@[cell_index(
                j,
                read_row as int,
            )] by {
                assert(old_rows[read_row as int] == row_of(old(self)@, read_row as int));
                assert(self@[cell_index(j, read_row as int)] == old(self)@[cell_index(j, read_row as int)]);
            }
            if is_full {
                assert forall|i: int| 0 <= i < old_rows[read_row as int].len() implies old_rows[read_row as int][i] != Cell::Empty by {
                    assert(self@[cell_index(i, read_row as int)] != Cell::Empty);
                }
            } else {
                let ghost j = choose|j: int| 0 <= j < WIDTH && self@[cell_index(j, read_row as int)] == Cell::Empty;
                assert(old_rows[read_row as int][j] == Cell::Empty);
            }
            assert(row_full(old_rows[read_row as int]) == is_full);
            proof { lemma_kept_rows_shape(old_rows.take(read_row as int)); }
            if is_full {
                cleared = cleared + 1;
            } else {
                let ghost start = self@;
                if write_row != read_row {
                    let target = write_row * WIDTH;
                    let mut x: usize = 0;
                    while x < WIDTH
                        invariant
                            self.wf(),
                            start.len() == CELL_COUNT,
                            x <= WIDTH,
                            base == read_row * 10,
                            target == write_row * 10,
                            write_row < read_row < TOTAL_HEIGHT,
                            forall|j: int|
                                0 <= j < CELL_COUNT && !(target <= j < target + x) ==> self@[j]
                                    == start[j],
                            forall|j: int|
                                0 <= j < x ==> self@[cell_index(j, write_row as int)]
                                    == start[cell_index(j, read_row as int)],
                        decreases WIDTH - x,
                    {
                        let c = self.grid[base + x];
                        self.grid.set(target + x, c);
                        x = x + 1;
                    }
                }
                let ghost after = kept_rows(old_rows.take(read_row as int + 1));
                assert(after == before.push(old_rows[read_row as int]));
                assert forall|w: int, c: int|
                    0 <= w < write_row + 1 && 0 <= c < WIDTH implies self@[cell_index(c, w)]
                        == after[w][c] by {
                    if w < write_row {
                        assert(self@[cell_index(c, w)] == start[cell_index(c, w)]);
                    } else {
                        assert(self@[cell_index(c, w)] == start[cell_index(c, read_row as int)]);
                        assert(old_rows[read_row as int] == row_of(old(self)@, read_row as int));
                    }
                }
                assert forall|y: int, c: int|
                    read_row < y < TOTAL_HEIGHT && 0 <= c < WIDTH implies self@[cell_index(c, y)]
                        == old(self)@[cell_index(c, y)] by {
                    assert(self@[cell_index(c, y)] == start[cell_index(c, y)]);
                }
                write_row = write_row + 1;
            }
            read_row = read_row + 1;
        }
        assert(old_rows.take(TOTAL_HEIGHT as int) =~= old_rows);
        proof { lemma_kept_rows_shape(old_rows); }
        while write_row < TOTAL_HEIGHT
            invariant
                self.wf(),
                old_rows.len() == TOTAL_HEIGHT,
                forall|y: int| 0 <= y < TOTAL_HEIGHT ==> #[trigger] old_rows[y].len() == WIDTH,
                kept_rows(old_rows).len() <= write_row <= TOTAL_HEIGHT,
                forall|w: int, x: int|
                    0 <= w < kept_rows(old_rows).len() && 0 <= x < WIDTH ==> self@[cell_index(x, w)]
                        == kept_rows(old_rows)[w][x],
                forall|w: int, x: int|
                    kept_rows(old_rows).len() <= w < write_row && 0 <= x < WIDTH ==> self@[cell_index(x, w)]
                        == Cell::Empty,
            decreases TOTAL_HEIGHT - write_row,
        {
            let target = write_row * WIDTH;
            let mut x: usize = 0;
            while x < WIDTH
                invariant
                    self.wf(),
                    old_rows.len() == TOTAL_HEIGHT,
                    forall|y: int| 0 <= y < TOTAL_HEIGHT ==> #[trigger] old_rows[y].len() == WIDTH,
                    x <= WIDTH,
                    target == write_row * 10,
                    kept_rows(old_rows).len() <= write_row < TOTAL_HEIGHT,
                    forall|w: int, x: int|
                        0 <= w < kept_rows(old_rows).len() && 0 <= x < WIDTH ==> self@[cell_index(x, w)]
                            == kept_rows(old_rows)[w][x],
                    forall|w: int, x: int|
                        kept_rows(old_rows).len() <= w < write_row && 0 <= x < WIDTH ==> self@[cell_index(x, w)]
                            == Cell::Empty,
                    forall|j: int|
                        0 <= j < x ==> self@[cell_index(j, write_row as int)] == Cell::Empty,
                decreases WIDTH - x,
            {
                let ghost prev = self@;
                self.grid.set(target + x, Cell::Empty);
                assert forall|w: int, c: int| 0 <= w < write_row && 0 <= c < WIDTH implies self@[cell_index(c, w)] == prev[cell_index(c, w)] by {
                    assert(cell_index(c, w) < target + x);
                }
                x = x + 1;
            }
            write_row = write_row + 1;
        }
        let ghost result = cleared_rows(old_rows);
        assert forall|y: int| 0 <= y < TOTAL_HEIGHT implies rows_of(self@)[y] =~= result[y] by {
            if y < kept_rows(old_rows).len() {
                let j = choose|j: int| 0 <= j < old_rows.len() && kept_rows(old_rows)[y] == old_rows[j];
                assert(old_rows[j].len() == WIDTH);
                assert forall|c: int| 0 <= c < WIDTH implies rows_of(self@)[y][c] == result[y][c] by {
                    assert(self@[cell_index(c, y)] == kept_rows(old_rows)[y][c]);
                }
            } else {
                assert forall|c: int| 0 <= c < WIDTH implies rows_of(self@)[y][c] == result[y][c] by {
                    assert(self@[cell_index(c, y)] == Cell::Empty);
                }
            }
        }
        assert(rows_of(self@) =~= result);
        cleared
    }

    /// Whether any cell of the hidden rows is occupied.
    pub fn is_topped_out(&self) -> (r: bool)
        requires
            self.wf(),
        ensures
            r == topped_out(self@),
    {
        let mut row: usize = HEIGHT;
        while row < TOTAL_HEIGHT
            invariant
                self.wf(),
                HEIGHT <= row <= TOTAL_HEIGHT,
                forall|x: int, y: int|
                    0 <= x < WIDTH && HEIGHT <= y < row ==> self@[cell_index(x, y)] == Cell::Empty,
            decreases TOTAL_HEIGHT - row,
        {
            let mut x: usize = 0;
            while x < WIDTH
                invariant
                    self.wf(),
                    x <= WIDTH,
                    HEIGHT <= row < TOTAL_HEIGHT,
                    forall|x: int, y: int|
                        0 <= x < WIDTH && HEIGHT <= y < row ==> self@[cell_index(x, y)] == Cell::Empty,
                    forall|j: int| 0 <= j < x ==> self@[cell_index(j, row as int)] == Cell::Empty,
                decreases WIDTH - x,
            {
                if !self.grid[row * WIDTH + x].is_empty() {
                    assert(self@[cell_index(x as int, row as int)] != Cell::Empty);
                    return true;
                }
                x = x + 1;
            }
            row = row + 1;
        }
        false
    }

    /// The visible rows as cell tags, top row first, each row left to right.
    pub fn get_visible_grid(&self) -> (r: Vec<u8>)
        requires
            self.wf(),
        ensures
            r@.len() == WIDTH * HEIGHT,
            forall|i: int|
                0 <= i < WIDTH * HEIGHT ==> r@[i] == cell_code(
                    self@[cell_index(i % 10, HEIGHT - 1 - i / 10)],
                ),
    {
        let mut result: Vec<u8> = Vec::new();
        let mut k: usize = 0;
        while k < HEIGHT
            invariant
                self.wf(),
                k <= HEIGHT,
                result@.len() == k * 10,
                forall|i: int|
                    0 <= i < k * 10 ==> result@[i] == cell_code(
                        self@[cell_index(i % 10, HEIGHT - 1 - i / 10)],
                    ),
            decreases HEIGHT - k,
        {
            let row = HEIGHT - 1 - k;
            let mut col: usize = 0;
            while col < WIDTH
                invariant
                    self.wf(),
                    k < HEIGHT,
                    row == HEIGHT - 1 - k,
                    col <= WIDTH,
                    result@.len() == k * 10 + col,
                    forall|i: int|
                        0 <= i < k * 10 + col ==> result@[i] == cell_code(
                            self@[cell_index(i % 10, HEIGHT - 1 - i / 10)],
                        ),
                decreases WIDTH - col,
            {
                result.push(self.grid[row * WIDTH + col].code());
                col = col + 1;
            }
            k = k + 1;
        }
        result
    }
}

} // verus!

verus! {

/// A row sequence in which no row is full keeps all of its rows.
pub proof fn lemma_kept_rows_none_full(rows: Seq<Seq<Cell>>)
    requires
        forall|j: int| 0 <= j < rows.len() ==> !row_full(#[trigger] rows[j]),
    ensures
        kept_rows(rows) == rows,
    decreases rows.len(),
{
    if rows.len() > 0 {
        lemma_kept_rows_none_full(rows.drop_last());
        assert(rows.drop_last().push(rows.last()) =~= rows);
    }
}

/// With exactly one full row `k`, the first `n` rows keep all but row `k`.
pub proof fn lemma_kept_rows_one_full(rows: Seq<Seq<Cell>>, k: int, n: int)
    requires
        0 <= k < rows.len(),
        row_full(rows[k]),
        forall|j: int| 0 <= j < rows.len() && j != k ==> !row_full(#[trigger] rows[j]),
        0 <= n <= rows.len(),
    ensures
        kept_rows(rows.take(n)) == (if n <= k {
            rows.take(n)
        } else {
            rows.take(k) + rows.subrange(k + 1, n)
        }),
    decreases n,
{
    if n > 0 {
        lemma_kept_rows_one_full(rows, k, n - 1);
        assert(rows.take(n).drop_last() =~= rows.take(n - 1));
        assert(rows.take(n).last() == rows[n - 1]);
        if n <= k {
            assert(rows.take(n - 1).push(rows[n - 1]) =~= rows.take(n));
        } else if n == k + 1 {
            assert(rows.take(k) + rows.subrange(k + 1, n) =~= rows.take(k));
        } else {
            assert((rows.take(k) + rows.subrange(k + 1, n - 1)).push(rows[n - 1]) =~= rows.take(k)
                + rows.subrange(k + 1, n));
        }
    }
}

/// Two cell sequences of a full board with the same rows are equal.
pub proof fn lemma_rows_determine_cells(a: Seq<Cell>, b: Seq<Cell>)
    requires
        a.len() == CELL_COUNT,
        b.len() == CELL_COUNT,
        rows_of(a) == rows_of(b),
    ensures
        a == b,
{
    assert forall|i: int| 0 <= i < CELL_COUNT implies a[i] == b[i] by {
        let y = i / 10;
        let x = i % 10;
        assert(i == y * 10 + x && 0 <= x < 10 && 0 <= y < 24) by (nonlinear_arith)
            requires
                0 <= i < 240,
                y == i / 10,
                x == i % 10,
        ;
        assert(rows_of(a)[y] == row_of(a, y));
        assert(rows_of(b)[y] == row_of(b, y));
        assert(row_of(a, y)[x] == a[y * 10 + x]);
        assert(row_of(b, y)[x] == b[y * 10 + x]);
    }
    assert(a =~= b);
}

/// Clearing lines on an all-empty board removes no row and changes nothing.
pub proof fn lemma_clear_lines_on_empty_board(b: Board)
    requires
        b.wf(),
        b.is_empty_board(),
    ensures
        TOTAL_HEIGHT - kept_rows(rows_of(b@)).len() == 0,
        forall|after: Board|
            after.wf() && rows_of(after@) == cleared_rows(rows_of(b@)) ==> after@ == b@,
{
    let rows = rows_of(b@);
    assert forall|j: int| 0 <= j < rows.len() implies !row_full(#[trigger] rows[j]) by {
        assert(rows[j][0] == b@[cell_index(0, j)]);
    }
    lemma_kept_rows_none_full(rows);
    assert(cleared_rows(rows) =~= rows);
    assert forall|after: Board|
        after.wf() && rows_of(after@) == cleared_rows(rows_of(b@)) implies after@ == b@ by {
        lemma_rows_determine_cells(after@, b@);
    }
}

/// Clearing lines with exactly one full row `k` removes that row: rows below
/// stay, rows above move down by one, and an empty row enters at the top.
pub proof fn lemma_clear_lines_single_full_row(cells: Seq<Cell>, k: int)
    requires
        cells.len() == CELL_COUNT,
        0 <= k < TOTAL_HEIGHT,
        row_full(row_of(cells, k)),
        forall|j: int| 0 <= j < TOTAL_HEIGHT && j != k ==> !row_full(#[trigger] row_of(cells, j)),
    ensures
        TOTAL_HEIGHT - kept_rows(rows_of(cells)).len() == 1,
        forall|j: int| 0 <= j < k ==> #[trigger] cleared_rows(rows_of(cells))[j] == row_of(cells, j),
        forall|j: int|
            k <= j < TOTAL_HEIGHT - 1 ==> #[trigger] cleared_rows(rows_of(cells))[j] == row_of(
                cells,
                j + 1,
            ),
        cleared_rows(rows_of(cells))[TOTAL_HEIGHT - 1] == empty_row(),
{
    let rows = rows_of(cells);
    assert forall|j: int| 0 <= j < rows.len() && j != k implies !row_full(#[trigger] rows[j]) by {
        assert(rows[j] == row_of(cells, j));
    }
    lemma_kept_rows_one_full(rows, k, TOTAL_HEIGHT as int);
    assert(rows.take(TOTAL_HEIGHT as int) =~= rows);
}

} // verus!

verus! {

/// Occupied positions `(x, y)` of row `y` with `x < n`, left to right.
pub open spec fn occupied_in_row(cells: Seq<Cell>, y: int, n: int) -> Seq<(int, int)>
    decreases n,
{
    if n <= 0 {
        Seq::empty()
    } else {
        let prev = occupied_in_row(cells, y, n - 1);
        if cells[cell_index(n - 1, y)] != Cell::Empty {
            prev.push((n - 1, y))
        } else {
            prev
        }
    }
}

/// Occupied positions of the rows below `m`, bottom row first.
pub open spec fn occupied_rows(cells: Seq<Cell>, m: int) -> Seq<(int, int)>
    decreases m,
{
    if m <= 0 {
        Seq::empty()
    } else {
        occupied_rows(cells, m - 1) + occupied_in_row(cells, m - 1, WIDTH as int)
    }
}

/// Occupied positions of the visible rows, bottom row first, each row left to right.
pub open spec fn occupied_visible(cells: Seq<Cell>) -> Seq<(int, int)> {
    occupied_rows(cells, HEIGHT as int)
}

} // verus!
