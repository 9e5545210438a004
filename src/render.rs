use crate::board::{int_pairs, cell_code, cell_index, occupied_in_row, occupied_rows, occupied_visible, Cell, HEIGHT, WIDTH};
use crate::game::{rest_y, Game};
use crate::piece::{lemma_blocks_near_origin, piece_cell, spawned, Piece, PieceType};
use vstd::prelude::*;

verus! {

/// Full opacity.
pub const OPAQUE: u8 = 255;

/// Opacity of the ghost piece (about 30%).
pub const GHOST_OPACITY: u8 = 77;

/// Opacity of the hold preview while hold is unavailable (about 40%).
pub const HOLD_LOCKED_OPACITY: u8 = 102;

/// One cell to draw: position (row 0 at the top), colour tag and opacity.
#[derive(Clone, Copy, PartialEq, Eq, Debug, Structural)]
pub struct RenderCell {
    pub x: u8,
    pub y: u8,
    pub color: u8,
    pub opacity: u8,
}

/// Everything the presentation layer draws for one frame.
#[derive(Clone, Debug)]
pub struct RenderState {
    pub board_cells: Vec<RenderCell>,
    pub piece_cells: Vec<RenderCell>,
    pub ghost_cells: Vec<RenderCell>,
    pub next_cells: Vec<RenderCell>,
    pub hold_cells: Vec<RenderCell>,
    pub hold_available: bool,
    pub score: u32,
    pub level: u32,
    pub lines: u32,
}

/// Integer view of a render cell: `(x, y, color, opacity)`.
pub open spec fn cell_view(c: RenderCell) -> (int, int, int, int) {
    (c.x as int, c.y as int, c.color as int, c.opacity as int)
}

/// Integer views of a sequence of render cells.
pub open spec fn views(cs: Seq<RenderCell>) -> Seq<(int, int, int, int)> {
    cs.map_values(|c: RenderCell| cell_view(c))
}

/// The drawn cell of board position `p`, flipped so that row 0 is the top.
pub open spec fn board_render_cell(cells: Seq<Cell>, p: (int, int)) -> (int, int, int, int) {
    (p.0, HEIGHT - 1 - p.1, cell_code(cells[cell_index(p.0, p.1)]) as int, OPAQUE as int)
}

/// Drawn cells of the occupied visible board cells.
pub open spec fn board_render(cells: Seq<Cell>) -> Seq<(int, int, int, int)> {
    occupied_visible(cells).map_values(|p: (int, int)| board_render_cell(cells, p))
}

/// Drawn cells of the first `n` blocks, shifted down by `drop` rows, that
/// land on a visible row.
pub open spec fn blocks_render(
    blocks: Seq<(int, int)>,
    n: int,
    drop: int,
    color: int,
    opacity: int,
) -> Seq<(int, int, int, int)>
    decreases n,
{
    if n <= 0 {
        Seq::empty()
    } else {
        let prev = blocks_render(blocks, n - 1, drop, color, opacity);
        let gy = blocks[n - 1].1 - drop;
        if 0 <= gy < HEIGHT {
            prev.push((blocks[n - 1].0, HEIGHT - 1 - gy, color, opacity))
        } else {
            prev
        }
    }
}

pub open spec fn min_int(a: int, b: int) -> int {
    if a <= b {
        a
    } else {
        b
    }
}

pub open spec fn max_int(a: int, b: int) -> int {
    if a >= b {
        a
    } else {
        b
    }
}

/// Column offset that centres the spawn shape of `pt` in a box 4 wide.
pub open spec fn preview_offset_x(pt: PieceType) -> int {
    let b = spawned(pt).blocks();
    let min_x = min_int(min_int(b[0].0, b[1].0), min_int(b[2].0, b[3].0));
    let max_x = max_int(max_int(b[0].0, b[1].0), max_int(b[2].0, b[3].0));
    (4 - (max_x - min_x + 1)) / 2 - min_x
}

/// Row offset that centres the spawn shape of `pt` in a box 2 high.
pub open spec fn preview_offset_y(pt: PieceType) -> int {
    let b = spawned(pt).blocks();
    let min_y = min_int(min_int(b[0].1, b[1].1), min_int(b[2].1, b[3].1));
    let max_y = max_int(max_int(b[0].1, b[1].1), max_int(b[2].1, b[3].1));
    (2 - (max_y - min_y + 1)) / 2 - min_y
}

/// Preview cells of a piece type: its spawn shape centred in a 4 by 2 box,
/// row 0 at the top.
pub open spec fn preview_render(pt: PieceType, opacity: int) -> Seq<(int, int, int, int)> {
    let b = spawned(pt).blocks();
    Seq::new(
        4,
        |i: int|
            (
                b[i].0 + preview_offset_x(pt),
                1 - (b[i].1 + preview_offset_y(pt)),
                cell_code(piece_cell(pt)) as int,
                opacity,
            ),
    )
}

/// The spawn shape lies in columns 3 to 6 and rows 20 to 21.
pub proof fn lemma_spawn_blocks_small(pt: PieceType)
    ensures
        forall|i: int|
            0 <= i < 4 ==> 3 <= #[trigger] spawned(pt).blocks()[i].0 <= 6 && 20 <= spawned(
                pt,
            ).blocks()[i].1 <= 21,
{
}

/// Every preview cell lies in the 4 by 2 box.
pub proof fn lemma_preview_in_box(pt: PieceType)
    ensures
        forall|i: int|
            0 <= i < 4 ==> 0 <= #[trigger] preview_render(pt, 0)[i].0 < 4 && 0 <= preview_render(
                pt,
                0,
            )[i].1 < 2,
{
}

fn min_i32(a: i32, b: i32) -> (r: i32)
    ensures
        r == min_int(a as int, b as int),
{
    if a <= b {
        a
    } else {
        b
    }
}

fn max_i32(a: i32, b: i32) -> (r: i32)
    ensures
        r == max_int(a as int, b as int),
{
    if a >= b {
        a
    } else {
        b
    }
}

/// Every block row shifted down by `drop` stays well inside `i32`.
pub open spec fn rows_shift_fits(blocks: Seq<(i32, i32)>, drop: int) -> bool {
    forall|i: int| 0 <= i < 4 ==> -2_000_000_000 <= #[trigger] blocks[i].1 - drop <= 2_000_000_000
}

/// `r` is the frame drawn for game `g`.
pub open spec fn renders(g: Game, r: RenderState) -> bool {
    &&& r.score == g.score
    &&& r.level == g.level
    &&& r.lines == g.lines_cleared
    &&& r.hold_available == g.can_hold
    &&& views(r.board_cells@) == board_render(g.board@)
    &&& views(r.piece_cells@) == match g.current_piece {
        None => Seq::empty(),
        Some(p) => blocks_render(p.blocks(), 4, 0, cell_code(piece_cell(p.piece_type)) as int, OPAQUE as int),
    }
    &&& views(r.ghost_cells@) == match g.current_piece {
        None => Seq::empty(),
        Some(p) => blocks_render(
            p.blocks(),
            4,
            p.y - rest_y(g.board@, p, p.y as int),
            cell_code(piece_cell(p.piece_type)) as int,
            GHOST_OPACITY as int,
        ),
    }
    &&& views(r.next_cells@) == preview_render(g.next_piece, OPAQUE as int)
    &&& views(r.hold_cells@) == match g.hold_piece {
        None => Seq::empty(),
        Some(h) => preview_render(
            h,
            if g.can_hold {
                OPAQUE as int
            } else {
                HOLD_LOCKED_OPACITY as int
            },
        ),
    }
}

/// The frame drawn without a game: nothing, with zero counters.
pub open spec fn is_empty_render(r: RenderState) -> bool {
    &&& r.board_cells@.len() == 0
    &&& r.piece_cells@.len() == 0
    &&& r.ghost_cells@.len() == 0
    &&& r.next_cells@.len() == 0
    &&& r.hold_cells@.len() == 0
    &&& !r.hold_available
    &&& r.score == 0
    &&& r.level == 0
    &&& r.lines == 0
}

/// The bytes `x, y, color, opacity` of each cell in turn.
pub open spec fn cell_bytes(cells: Seq<RenderCell>) -> Seq<u8>
    decreases cells.len(),
{
    if cells.len() == 0 {
        Seq::empty()
    } else {
        let c = cells.last();
        cell_bytes(cells.drop_last()) + seq![c.x, c.y, c.color, c.opacity]
    }
}

/// A frame as flat byte arrays, four bytes per cell.
#[derive(Clone, Debug)]
pub struct RenderArrays {
    pub board: Vec<u8>,
    pub piece: Vec<u8>,
    pub ghost_piece: Vec<u8>,
    pub next: Vec<u8>,
    pub hold: Vec<u8>,
    pub score: u32,
    pub level: u32,
    pub lines: u32,
    pub hold_available: bool,
}

impl RenderState {
    /// A frame with nothing to draw.
    pub fn empty() -> (r: RenderState)
        ensures
            is_empty_render(r),
    {
        RenderState {
            board_cells: Vec::new(),
            piece_cells: Vec::new(),
            ghost_cells: Vec::new(),
            next_cells: Vec::new(),
            hold_cells: Vec::new(),
            hold_available: false,
            score: 0,
            level: 0,
            lines: 0,
        }
    }

    /// The frame for game `game`.
    pub fn from_game(game: &Game) -> (r: RenderState)
        requires
            game.wf(),
        ensures
            renders(*game, r),
    {
        let ghost cells = game.board@;
        let mut board_cells: Vec<RenderCell> = Vec::new();
        let mut y: usize = 0;
        while y < HEIGHT
            invariant
                game.wf(),
                cells == game.board@,
                y <= HEIGHT,
                views(board_cells@) == occupied_rows(cells, y as int).map_values(
                    |q: (int, int)| board_render_cell(cells, q),
                ),
            decreases HEIGHT - y,
        {
            let mut x: usize = 0;
            while x < WIDTH
                invariant
                    game.wf(),
                    cells == game.board@,
                    y < HEIGHT,
                    x <= WIDTH,
                    views(board_cells@) == (occupied_rows(cells, y as int) + occupied_in_row(
                        cells,
                        y as int,
                        x as int,
                    )).map_values(|q: (int, int)| board_render_cell(cells, q)),
                decreases WIDTH - x,
            {
                let cell = game.board.get(x as i32, y as i32);
                let ghost before = occupied_rows(cells, y as int) + occupied_in_row(
                    cells,
                    y as int,
                    x as int,
                );
                let ghost after = occupied_rows(cells, y as int) + occupied_in_row(
                    cells,
                    y as int,
                    x + 1,
                );
                assert(cell == Some(cells[cell_index(x as int, y as int)]));
                if let Some(c) = cell {
                    if !c.is_empty() {
                        let ghost p = (x as int, y as int);
                        assert(after =~= before.push(p));
                        assert(after.map_values(|q: (int, int)| board_render_cell(cells, q))
                            =~= before.map_values(|q: (int, int)| board_render_cell(cells, q)).push(
                            board_render_cell(cells, p),
                        ));
                        let ghost prev = board_cells@;
                        let code = c.code();
                        let rc = RenderCell {
                            x: x as u8,
                            y: (HEIGHT - 1 - y) as u8,
                            color: code,
                            opacity: OPAQUE,
                        };
                        assert(cell_view(rc) == board_render_cell(cells, p));
                        board_cells.push(rc);
                        assert(views(board_cells@) =~= views(prev).push(cell_view(rc)));
                    } else {
                        assert(after =~= before);
                    }
                }
                x = x + 1;
            }
            assert(occupied_rows(cells, y + 1) == occupied_rows(cells, y as int) + occupied_in_row(
                cells,
                y as int,
                WIDTH as int,
            ));
            y = y + 1;
        }
        let mut piece_cells: Vec<RenderCell> = Vec::new();
        let mut ghost_cells: Vec<RenderCell> = Vec::new();
        if let Some(piece) = game.current_piece {
            let color = piece.piece_type.to_cell().code();
            let blocks = piece.get_blocks();
            proof {
                lemma_blocks_near_origin(piece);
            }
            assert forall|i: int| 0 <= i < 4 implies 0 <= #[trigger] blocks@[i].0 < WIDTH by {
                assert(int_pairs(blocks@)[i] == piece.blocks()[i]);
            }
            assert forall|i: int| 0 <= i < 4 implies -2_000_000_000 <= #[trigger] blocks@[i].1 <= 2_000_000_000 by {
                assert(int_pairs(blocks@)[i] == piece.blocks()[i]);
            }
            piece_cells = Self::visible_cells(&blocks, 0, color, OPAQUE);
            if let Some(ghost_y) = game.get_ghost_y() {
                proof {
                    crate::game::lemma_rest_y_lands(game.board@, piece, piece.y as int);
                }
                let dy = piece.y - ghost_y;
                assert forall|i: int| 0 <= i < 4 implies -2_000_000_000 <= #[trigger] blocks@[i].1 - dy
                    <= 2_000_000_000 by {
                    assert(int_pairs(blocks@)[i] == piece.blocks()[i]);
                }
                assert(rows_shift_fits(blocks@, dy as int));
                ghost_cells = Self::visible_cells(&blocks, dy, color, GHOST_OPACITY);
            }
        }
        let next_cells = Self::preview_cells(game.next_piece, OPAQUE);
        let hold_cells = match game.hold_piece {
            Some(hold_type) => {
                let opacity = if game.can_hold {
                    OPAQUE
                } else {
                    HOLD_LOCKED_OPACITY
                };
                Self::preview_cells(hold_type, opacity)
            },
            None => {
                let empty: Vec<RenderCell> = Vec::new();
                assert(views(empty@) =~= Seq::empty());
                empty
            },
        };
        let r = RenderState {
            board_cells,
            piece_cells,
            ghost_cells,
            next_cells,
            hold_cells,
            hold_available: game.can_hold,
            score: game.score,
            level: game.level,
            lines: game.lines_cleared,
        };
        assert(views(r.piece_cells@) == match game.current_piece {
            None => Seq::empty(),
            Some(p) => blocks_render(p.blocks(), 4, 0, cell_code(piece_cell(p.piece_type)) as int, OPAQUE as int),
        });
        assert(views(r.ghost_cells@) == match game.current_piece {
            None => Seq::empty(),
            Some(p) => blocks_render(
                p.blocks(),
                4,
                p.y - rest_y(game.board@, p, p.y as int),
                cell_code(piece_cell(p.piece_type)) as int,
                GHOST_OPACITY as int,
            ),
        });
        r
    }

    /// Drawn cells of the blocks, shifted down by `drop` rows, that land on a visible row.
    fn visible_cells(blocks: &[(i32, i32); 4], drop: i32, color: u8, opacity: u8) -> (r: Vec<
        RenderCell,
    >)
        requires
            forall|i: int| 0 <= i < 4 ==> 0 <= #[trigger] blocks@[i].0 < WIDTH,
            rows_shift_fits(blocks@, drop as int),
        ensures
            views(r@) == blocks_render(int_pairs(blocks@), 4, drop as int, color as int, opacity as int),
    {
        let mut out: Vec<RenderCell> = Vec::new();
        let mut i: usize = 0;
        while i < 4
            invariant
                0 <= i <= 4,
                forall|j: int| 0 <= j < 4 ==> 0 <= #[trigger] blocks@[j].0 < WIDTH,
                rows_shift_fits(blocks@, drop as int),
                views(out@) == blocks_render(
                    int_pairs(blocks@),
                    i as int,
                    drop as int,
                    color as int,
                    opacity as int,
                ),
            decreases 4 - i,
        {
            let (px, py) = blocks[i];
            assert(int_pairs(blocks@)[i as int] == (px as int, py as int));
            let gy = py - drop;
            if gy >= 0 && gy < HEIGHT as i32 {
                let rc = RenderCell { x: px as u8, y: (HEIGHT as i32 - 1 - gy) as u8, color, opacity };
                let ghost prev = out@;
                out.push(rc);
                assert(views(out@) =~= views(prev).push(cell_view(rc)));
            }
            i = i + 1;
        }
        out
    }

    /// Preview cells of a piece type (see `preview_render`).
    fn preview_cells(piece_type: PieceType, opacity: u8) -> (r: Vec<RenderCell>)
        ensures
            views(r@) == preview_render(piece_type, opacity as int),
    {
        let piece = Piece::new(piece_type);
        let blocks = piece.get_blocks();
        let color = piece_type.to_cell().code();
        let ghost b = spawned(piece_type).blocks();
        assert(forall|i: int| 0 <= i < 4 ==> (blocks@[i].0 as int, blocks@[i].1 as int) == b[i]) by {
            assert(int_pairs(blocks@) == b);
        }
        proof {
            lemma_preview_in_box(piece_type);
            lemma_spawn_blocks_small(piece_type);
        }
        assert(3 <= b[0].0 <= 6 && 20 <= b[0].1 <= 21);
        assert(3 <= b[1].0 <= 6 && 20 <= b[1].1 <= 21);
        assert(3 <= b[2].0 <= 6 && 20 <= b[2].1 <= 21);
        assert(3 <= b[3].0 <= 6 && 20 <= b[3].1 <= 21);
        let (x0, y0) = blocks[0];
        let (x1, y1) = blocks[1];
        let (x2, y2) = blocks[2];
        let (x3, y3) = blocks[3];
        let min_x = min_i32(min_i32(x0, x1), min_i32(x2, x3));
        let max_x = max_i32(max_i32(x0, x1), max_i32(x2, x3));
        let min_y = min_i32(min_i32(y0, y1), min_i32(y2, y3));
        let max_y = max_i32(max_i32(y0, y1), max_i32(y2, y3));
        let width = max_x - min_x + 1;
        let height = max_y - min_y + 1;
        let offset_x = (4 - width) / 2 - min_x;
        let offset_y = (2 - height) / 2 - min_y;
        assert(offset_x == preview_offset_x(piece_type));
        assert(offset_y == preview_offset_y(piece_type));
        let mut out: Vec<RenderCell> = Vec::new();
        let mut k: usize = 0;
        while k < 4
            invariant
                0 <= k <= 4,
                forall|j: int| 0 <= j < 4 ==> (blocks@[j].0 as int, blocks@[j].1 as int) == b[j],
                b == spawned(piece_type).blocks(),
                offset_x == preview_offset_x(piece_type),
                offset_y == preview_offset_y(piece_type),
                color == cell_code(piece_cell(piece_type)),
                forall|i: int|
                    0 <= i < 4 ==> 0 <= #[trigger] preview_render(piece_type, 0)[i].0 < 4 && 0
                        <= preview_render(piece_type, 0)[i].1 < 2,
                views(out@) == preview_render(piece_type, opacity as int).take(k as int),
            decreases 4 - k,
        {
            let (x, y) = blocks[k];
            assert(preview_render(piece_type, 0)[k as int].0 == x + offset_x);
            assert(preview_render(piece_type, 0)[k as int].1 == 1 - (y + offset_y));
            let rc = RenderCell {
                x: (x + offset_x) as u8,
                y: (1 - (y + offset_y)) as u8,
                color,
                opacity,
            };
            assert(cell_view(rc) == preview_render(piece_type, opacity as int)[k as int]);
            let ghost prev = out@;
            out.push(rc);
            assert(views(out@) =~= views(prev).push(cell_view(rc)));
            assert(views(out@) =~= preview_render(piece_type, opacity as int).take(k + 1));
            k = k + 1;
        }
        assert(preview_render(piece_type, opacity as int).take(4) =~= preview_render(
            piece_type,
            opacity as int,
        ));
        out
    }

    /// The frame as flat byte arrays, four bytes per cell.
    pub fn to_flat_arrays(&self) -> (r: RenderArrays)
        ensures
            r.board@ == cell_bytes(self.board_cells@),
            r.piece@ == cell_bytes(self.piece_cells@),
            r.ghost_piece@ == cell_bytes(self.ghost_cells@),
            r.next@ == cell_bytes(self.next_cells@),
            r.hold@ == cell_bytes(self.hold_cells@),
            r.score == self.score,
            r.level == self.level,
            r.lines == self.lines,
            r.hold_available == self.hold_available,
    {
        RenderArrays {
            board: Self::cells_to_bytes(&self.board_cells),
            piece: Self::cells_to_bytes(&self.piece_cells),
            ghost_piece: Self::cells_to_bytes(&self.ghost_cells),
            next: Self::cells_to_bytes(&self.next_cells),
            hold: Self::cells_to_bytes(&self.hold_cells),
            score: self.score,
            level: self.level,
            lines: self.lines,
            hold_available: self.hold_available,
        }
    }

    fn cells_to_bytes(cells: &Vec<RenderCell>) -> (r: Vec<u8>)
        ensures
            r@ == cell_bytes(cells@),
    {
        let mut out: Vec<u8> = Vec::new();
        let mut i: usize = 0;
        while i < cells.len()
            invariant
                i <= cells@.len(),
                out@ == cell_bytes(cells@.take(i as int)),
            decreases cells@.len() - i,
        {
            let c = cells[i];
            out.push(c.x);
            out.push(c.y);
            out.push(c.color);
            out.push(c.opacity);
            assert(cells@.take(i as int + 1).drop_last() =~= cells@.take(i as int));
            assert(out@ =~= cell_bytes(cells@.take(i as int + 1)));
            i = i + 1;
        }
        assert(cells@.take(cells@.len() as int) =~= cells@);
        out
    }
}

} // verus!
