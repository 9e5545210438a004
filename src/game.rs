use crate::bag::{drawn_from, is_full_bag, Bag};
use crate::board::{
    all_free, cell_code, cell_index, cleared_rows, in_bounds, kept_rows, lemma_kept_rows_none_full,
    lemma_rows_determine_cells, occupied_in_row, position_free, row_full,
    occupied_rows, occupied_visible, HEIGHT, WIDTH, lock_positions, rows_of, topped_out, Board, Cell,
    CELL_COUNT, TOTAL_HEIGHT,
};
use crate::piece::{
    all_piece_types, cells_of, in_coord_range, lemma_blocks_near_origin, kicks_for, lemma_kicks_small, piece_cell, spawned,
    turned, Piece, PieceType, Rotation, COORD_LIMIT, SPAWN_X, SPAWN_Y,
};
use vstd::prelude::*;

verus! {

/// Outcome of a player or gravity action.
#[derive(Clone, Copy, PartialEq, Eq, Debug, Structural)]
pub enum MoveResult {
    Success,
    Failed,
    Locked,
    GameOver,
}

/// Whether a piece of type `pt` in rotation `r` may stand with origin `(x, y)`:
/// the origin is within `COORD_LIMIT` and every block is on a free position.
pub open spec fn fits(cells: Seq<Cell>, pt: PieceType, r: Rotation, x: int, y: int) -> bool {
    in_coord_range(x) && in_coord_range(y) && all_free(cells, cells_of(pt, r, x, y))
}

/// Whether a fresh piece of type `pt` has room at the spawn position.
pub open spec fn spawn_free(cells: Seq<Cell>, pt: PieceType) -> bool {
    all_free(cells, spawned(pt).blocks())
}

/// `v` clamped to the range of `u32`.
pub open spec fn saturated(v: int) -> u32 {
    if v > u32::MAX {
        u32::MAX
    } else {
        v as u32
    }
}

/// Points for clearing `lines` rows at once, before the level multiplier.
pub open spec fn base_line_score(lines: int) -> int {
    if lines == 1 {
        100
    } else if lines == 2 {
        300
    } else if lines == 3 {
        500
    } else if lines == 4 {
        800
    } else {
        0
    }
}

/// Points for clearing `lines` rows at once at level `level`.
pub open spec fn line_score(lines: int, level: int) -> int {
    base_line_score(lines) * level
}

/// Level reached after `lines` cleared rows.
pub open spec fn level_for(lines: int) -> int {
    lines / 10 + 1
}

/// Gravity period of a level, in frames at 60 frames per second.
pub open spec fn drop_frames(level: int) -> int {
    if level <= 1 {
        48
    } else if level == 2 {
        43
    } else if level == 3 {
        38
    } else if level == 4 {
        33
    } else if level == 5 {
        28
    } else if level == 6 {
        23
    } else if level == 7 {
        18
    } else if level == 8 {
        13
    } else if level == 9 {
        8
    } else if level <= 12 {
        6
    } else if level <= 15 {
        5
    } else if level <= 18 {
        4
    } else if level <= 28 {
        3
    } else {
        2
    }
}

/// The first of the kick candidates, from the `k`-th on, at which the turned
/// piece fits; the piece placed there.
pub open spec fn first_fit(cells: Seq<Cell>, p: Piece, clockwise: bool, k: int) -> Option<Piece>
    decreases 5 - k,
{
    if k >= 5 || k < 0 {
        None
    } else {
        let to = turned(p.rotation, clockwise);
        let kick = kicks_for(p.piece_type, p.rotation, to)[k];
        if fits(cells, p.piece_type, to, p.x + kick.0, p.y + kick.1) {
            Some(Piece { rotation: to, x: (p.x + kick.0) as i32, y: (p.y + kick.1) as i32, ..p })
        } else {
            first_fit(cells, p, clockwise, k + 1)
        }
    }
}

/// Game state: the board, the falling piece, the preview and hold slots,
/// score and level, and the randomizer.
#[derive(Clone, Debug)]
pub struct Game {
    pub board: Board,
    pub current_piece: Option<Piece>,
    pub next_piece: PieceType,
    pub hold_piece: Option<PieceType>,
    pub can_hold: bool,
    pub score: u32,
    pub level: u32,
    pub lines_cleared: u32,
    pub game_over: bool,
    pub bag: Bag,
}

/// State and result of `move_piece(dx, dy)` on `g`.
pub open spec fn move_outcome(g: Game, dx: int, dy: int) -> (Game, MoveResult) {
    if g.game_over {
        (g, MoveResult::GameOver)
    } else {
        match g.current_piece {
            None => (g, MoveResult::Failed),
            Some(p) => if fits(g.board@, p.piece_type, p.rotation, p.x + dx, p.y + dy) {
                (
                    Game {
                        current_piece: Some(Piece { x: (p.x + dx) as i32, y: (p.y + dy) as i32, ..p }),
                        ..g
                    },
                    MoveResult::Success,
                )
            } else {
                (g, MoveResult::Failed)
            },
        }
    }
}

/// State and result of `rotate(clockwise)` on `g`.
pub open spec fn rotate_outcome(g: Game, clockwise: bool) -> (Game, MoveResult) {
    if g.game_over {
        (g, MoveResult::GameOver)
    } else {
        match g.current_piece {
            None => (g, MoveResult::Failed),
            Some(p) => if p.piece_type == PieceType::O {
                (g, MoveResult::Success)
            } else {
                match first_fit(g.board@, p, clockwise, 0) {
                    Some(q) => (Game { current_piece: Some(q), ..g }, MoveResult::Success),
                    None => (g, MoveResult::Failed),
                }
            },
        }
    }
}

/// `g1` follows from `g0` by spawning the preview piece, with result `ok`:
/// a new preview is drawn from the bag; the piece is installed and hold is
/// re-enabled when it has room, else the game is over.
pub open spec fn spawn_rel(g0: Game, g1: Game, ok: bool) -> bool {
    &&& drawn_from(g0.bag@, g1.bag@, g1.next_piece)
    &&& g1.board == g0.board
    &&& g1.hold_piece == g0.hold_piece
    &&& g1.score == g0.score
    &&& g1.level == g0.level
    &&& g1.lines_cleared == g0.lines_cleared
    &&& ok == spawn_free(g0.board@, g0.next_piece)
    &&& ok ==> g1.current_piece == Some(spawned(g0.next_piece)) && g1.can_hold && g1.game_over
        == g0.game_over
    &&& !ok ==> g1.current_piece.is_none() && g1.game_over && g1.can_hold == g0.can_hold
}

/// The cells after writing the blocks of `p` in its colour.
pub open spec fn locked_cells(cells: Seq<Cell>, p: Piece) -> Seq<Cell> {
    lock_positions(cells, p.blocks(), piece_cell(p.piece_type))
}

/// Number of full rows in `cells`.
pub open spec fn full_rows(cells: Seq<Cell>) -> int {
    TOTAL_HEIGHT - kept_rows(rows_of(cells)).len()
}

/// `g1` and `r` follow from `g0` by locking the falling piece: its blocks are
/// written into the board, full rows are cleared and scored at the level in
/// force before the clear, the level is recomputed, and then either the hidden
/// rows are occupied (game over) or the next piece spawns.
pub open spec fn lock_rel(g0: Game, g1: Game, r: MoveResult) -> bool {
    match g0.current_piece {
        None => r == MoveResult::Failed && g1 == g0,
        Some(p) => {
            let locked = locked_cells(g0.board@, p);
            let lines = full_rows(locked);
            let total = if lines > 0 {
                saturated(g0.lines_cleared + lines)
            } else {
                g0.lines_cleared
            };
            let score = if lines > 0 {
                saturated(g0.score + line_score(lines, g0.level as int))
            } else {
                g0.score
            };
            let mid = Game {
                board: g1.board,
                current_piece: None,
                score,
                lines_cleared: total,
                level: level_for(total as int) as u32,
                ..g0
            };
            &&& g1.board.wf()
            &&& rows_of(g1.board@) == cleared_rows(rows_of(locked))
            &&& if topped_out(g1.board@) {
                r == MoveResult::GameOver && g1 == Game { game_over: true, ..mid }
            } else {
                let ok = spawn_free(g1.board@, g0.next_piece);
                spawn_rel(mid, g1, ok) && r == (if ok {
                    MoveResult::Locked
                } else {
                    MoveResult::GameOver
                })
            }
        },
    }
}

/// `g1` and `r` follow from `g0` by one gravity step.
pub open spec fn tick_rel(g0: Game, g1: Game, r: MoveResult) -> bool {
    if g0.game_over {
        r == MoveResult::GameOver && g1 == g0
    } else if g0.current_piece.is_none() {
        let ok = spawn_free(g0.board@, g0.next_piece);
        spawn_rel(g0, g1, ok) && r == (if ok {
            MoveResult::Success
        } else {
            MoveResult::GameOver
        })
    } else if move_outcome(g0, 0, -1).1 == MoveResult::Failed {
        lock_rel(g0, g1, r)
    } else {
        (g1, r) == move_outcome(g0, 0, -1)
    }
}

/// Lowest origin row that piece `p` reaches by falling from row `y`, one row
/// at a time, while it fits.
pub open spec fn rest_y(cells: Seq<Cell>, p: Piece, y: int) -> int
    decreases y + COORD_LIMIT,
{
    if fits(cells, p.piece_type, p.rotation, p.x as int, y - 1) {
        rest_y(cells, p, y - 1)
    } else {
        y
    }
}

/// `g1` and `r` follow from `g0` by a hard drop: the piece falls as far as it
/// fits, two points are awarded per row fallen, and it locks.
pub open spec fn hard_drop_rel(g0: Game, g1: Game, r: MoveResult) -> bool {
    if g0.game_over {
        r == MoveResult::GameOver && g1 == g0
    } else {
        match g0.current_piece {
            None => r == MoveResult::Failed && g1 == g0,
            Some(p) => {
                let y = rest_y(g0.board@, p, p.y as int);
                let landed = Game {
                    current_piece: Some(Piece { y: y as i32, ..p }),
                    score: saturated(g0.score + 2 * (p.y - y)),
                    ..g0
                };
                lock_rel(landed, g1, r)
            },
        }
    }
}

/// `g1` and `r` follow from `g0` by a hold: the falling piece's type goes to
/// the hold slot and is replaced by the previously held type at the spawn
/// position (not checked for room), or, on first use, by the next piece.
/// Allowed once per spawned piece.
pub open spec fn hold_rel(g0: Game, g1: Game, r: MoveResult) -> bool {
    if g0.game_over || !g0.can_hold || g0.current_piece.is_none() {
        r == MoveResult::Failed && g1 == g0
    } else {
        let p = g0.current_piece.unwrap();
        &&& r == MoveResult::Success
        &&& match g0.hold_piece {
            Some(h) => g1 == Game {
                hold_piece: Some(p.piece_type),
                current_piece: Some(spawned(h)),
                can_hold: false,
                ..g0
            },
            None => {
                let mid = Game { hold_piece: Some(p.piece_type), ..g0 };
                &&& !g1.can_hold
                &&& spawn_rel(
                    mid,
                    Game { can_hold: true, ..g1 },
                    spawn_free(g0.board@, g0.next_piece),
                )
            },
        }
    }
}

/// Every block of `p` lies between the side walls.
pub open spec fn in_columns(p: Piece) -> bool {
    forall|i: int| 0 <= i < 4 ==> 0 <= #[trigger] p.blocks()[i].0 < WIDTH
}

/// A freshly spawned piece lies between the side walls.
pub proof fn lemma_spawned_in_columns(pt: PieceType)
    ensures
        in_columns(spawned(pt)),
{
}

/// A board-cell entry `(x, y, tag)` with integer coordinates.
pub open spec fn entry_view(t: (i32, i32, u8)) -> (int, int, u8) {
    (t.0 as int, t.1 as int, t.2)
}

/// The entry of board position `p`: its coordinates and the tag of its cell.
pub open spec fn board_entry(cells: Seq<Cell>, p: (int, int)) -> (int, int, u8) {
    (p.0, p.1, cell_code(cells[cell_index(p.0, p.1)]))
}

/// What holds of a game just created: well formed, empty board, no points,
/// level 1, nothing held; a fresh bag `s` was filled, its last piece falls
/// from the spawn position, the one before it is the preview, and the first
/// five stay in the bag.
pub open spec fn is_new_game(g: Game) -> bool {
    &&& g.wf()
    &&& g.board.is_empty_board()
    &&& g.score == 0
    &&& g.level == 1
    &&& g.lines_cleared == 0
    &&& g.hold_piece.is_none()
    &&& g.can_hold
    &&& !g.game_over
    &&& exists|s: Seq<PieceType>|
        #![trigger is_full_bag(s)]
        is_full_bag(s) && g.current_piece == Some(spawned(s[6])) && g.next_piece == s[5]
            && g.bag@ == s.take(5)
}

/// `g1` and `r` follow from `g0` by a soft drop: a one-row move down that
/// earns one point when it succeeds.
pub open spec fn soft_drop_rel(g0: Game, g1: Game, r: MoveResult) -> bool {
    let (moved, m) = move_outcome(g0, 0, -1);
    &&& r == m
    &&& r == MoveResult::Success ==> g1 == Game { score: saturated(g0.score + 1), ..moved }
    &&& r != MoveResult::Success ==> g1 == g0
}

/// Whether gravity is due after `elapsed` ms at base interval `base` ms. The
/// interval is divided by a height factor `(184 - y) / 160` of the falling
/// piece's origin row `y` (1 at row 24, 1.15 at row 0), so lower pieces fall
/// up to 15% faster; without a piece the factor is 1.
pub open spec fn drop_due(elapsed: int, base: int, piece: Option<Piece>) -> bool {
    match piece {
        None => elapsed >= base,
        Some(p) => if p.y < 184 {
            elapsed * (184 - p.y) >= 160 * base
        } else {
            p.y > 184
        },
    }
}

/// On an empty board every piece has room at the spawn position.
pub proof fn lemma_spawn_free_on_empty(cells: Seq<Cell>, pt: PieceType)
    requires
        cells.len() == CELL_COUNT,
        forall|i: int| 0 <= i < cells.len() ==> cells[i] == Cell::Empty,
    ensures
        spawn_free(cells, pt),
{
}

/// Where a falling piece comes to rest: every row from its start down to the
/// resting row fits, and the row just below does not (a block would meet the
/// floor or an occupied cell).
pub proof fn lemma_rest_y_lands(cells: Seq<Cell>, p: Piece, y: int)
    requires
        in_coord_range(y),
    ensures
        -COORD_LIMIT <= rest_y(cells, p, y) <= y,
        !fits(cells, p.piece_type, p.rotation, p.x as int, rest_y(cells, p, y) - 1),
        forall|z: int|
            rest_y(cells, p, y) <= z < y ==> fits(cells, p.piece_type, p.rotation, p.x as int, z),
    decreases y + COORD_LIMIT,
{
    if fits(cells, p.piece_type, p.rotation, p.x as int, y - 1) {
        lemma_rest_y_lands(cells, p, y - 1);
    }
}

/// In every well-formed game state, and so in every state that the public
/// operations reach, the board holds a cell at each position on it and
/// nothing off it.
pub proof fn lemma_board_cells_defined(g: Game)
    requires
        g.wf(),
    ensures
        forall|x: int, y: int| #[trigger] g.board.cell(x, y).is_some() <==> in_bounds(x, y),
{
}

/// Turning the O piece succeeds and changes nothing, whatever the board holds.
pub proof fn lemma_o_rotation_changes_nothing(g: Game, clockwise: bool)
    requires
        !g.game_over,
        g.current_piece matches Some(p) && p.piece_type == PieceType::O,
    ensures
        rotate_outcome(g, clockwise) == (g, MoveResult::Success),
{
}

/// On an empty board a T piece at the spawn position turns in place through
/// the first kick candidate, one quarter turn per call, in either direction.
pub proof fn lemma_t_turns_in_place_at_spawn(g: Game, clockwise: bool)
    requires
        g.wf(),
        g.board.is_empty_board(),
        !g.game_over,
        g.current_piece matches Some(p) && p == (Piece { rotation: p.rotation, ..spawned(PieceType::T) }),
    ensures
        rotate_outcome(g, clockwise) == (Game {
            current_piece: Some(Piece {
                rotation: turned(g.current_piece.unwrap().rotation, clockwise),
                ..spawned(PieceType::T)
            }),
            ..g
        }, MoveResult::Success),
{
    let p = g.current_piece.unwrap();
    let to = turned(p.rotation, clockwise);
    lemma_kicks_small(p.piece_type, p.rotation, to);
    assert(fits(g.board@, PieceType::T, to, SPAWN_X as int, SPAWN_Y as int));
}

/// Four clockwise turns of a T piece at the spawn position on an empty board
/// bring the game back to where it started.
pub proof fn lemma_t_four_turns_return(g: Game)
    requires
        g.wf(),
        g.board.is_empty_board(),
        !g.game_over,
        g.current_piece == Some(spawned(PieceType::T)),
    ensures
        rotate_outcome(rotate_outcome(rotate_outcome(rotate_outcome(g, true).0, true).0, true).0, true)
            == (g, MoveResult::Success),
{
    lemma_t_turns_in_place_at_spawn(g, true);
    let g1 = rotate_outcome(g, true).0;
    lemma_t_turns_in_place_at_spawn(g1, true);
    let g2 = rotate_outcome(g1, true).0;
    lemma_t_turns_in_place_at_spawn(g2, true);
    let g3 = rotate_outcome(g2, true).0;
    lemma_t_turns_in_place_at_spawn(g3, true);
}

/// A successful hold disables holding: a second hold before the next piece
/// spawns fails and leaves the game, hold slot and falling piece unchanged.
pub proof fn lemma_second_hold_fails(g0: Game, g1: Game, g2: Game, r1: MoveResult, r2: MoveResult)
    requires
        hold_rel(g0, g1, r1),
        r1 == MoveResult::Success,
        hold_rel(g1, g2, r2),
    ensures
        r2 == MoveResult::Failed,
        g2 == g1,
{
}

/// Locking a piece that completes `lines > 0` rows adds them to the cleared
/// rows and scores them at the level in force before the clear, then
/// recomputes the level (when neither total reaches `u32::MAX`). For
/// instance four rows at level 1 score 800 and one row at level 3 scores 300.
pub proof fn lemma_lock_scores_at_pre_clear_level(g0: Game, g1: Game, r: MoveResult)
    requires
        lock_rel(g0, g1, r),
        g0.current_piece is Some,
        full_rows(locked_cells(g0.board@, g0.current_piece.unwrap())) > 0,
        g0.score + line_score(
            full_rows(locked_cells(g0.board@, g0.current_piece.unwrap())),
            g0.level as int,
        ) <= u32::MAX,
        g0.lines_cleared + full_rows(locked_cells(g0.board@, g0.current_piece.unwrap()))
            <= u32::MAX,
    ensures
        ({
            let lines = full_rows(locked_cells(g0.board@, g0.current_piece.unwrap()));
            &&& g1.score == g0.score + line_score(lines, g0.level as int)
            &&& g1.lines_cleared == g0.lines_cleared + lines
            &&& g1.level == level_for(g1.lines_cleared as int)
        }),
        line_score(4, 1) == 800,
        line_score(1, 3) == 300,
{
}

/// The cells written by a lock hold its colour at each position on the board.
proof fn lemma_lock_positions_writes(cells: Seq<Cell>, ps: Seq<(int, int)>, c: Cell)
    requires
        cells.len() == CELL_COUNT,
    ensures
        lock_positions(cells, ps, c).len() == CELL_COUNT,
        forall|i: int|
            0 <= i < ps.len() && in_bounds(ps[i].0, ps[i].1) ==> #[trigger] lock_positions(
                cells,
                ps,
                c,
            )[cell_index(ps[i].0, ps[i].1)] == c,
    decreases ps.len(),
{
    if ps.len() > 0 {
        let rest = ps.drop_last();
        lemma_lock_positions_writes(cells, rest, c);
        assert forall|i: int| 0 <= i < ps.len() && in_bounds(ps[i].0, ps[i].1) implies #[trigger] lock_positions(
            cells,
            ps,
            c,
        )[cell_index(ps[i].0, ps[i].1)] == c by {
            if i < ps.len() - 1 {
                assert(ps[i] == rest[i]);
            }
        }
    }
}

/// A hard drop of a piece that fits where it is falls `d` rows, at least 0
/// and at most its lowest block's row, to the rest row, where it fits and one
/// row lower it would not. When locking there completes no row, the board
/// afterwards holds the piece's colour at each of its visible blocks.
pub proof fn lemma_hard_drop_lands(g0: Game, g1: Game, r: MoveResult)
    requires
        g0.wf(),
        hard_drop_rel(g0, g1, r),
        !g0.game_over,
        g0.current_piece matches Some(p) && fits(g0.board@, p.piece_type, p.rotation, p.x as int, p.y as int),
    ensures
        ({
            let p = g0.current_piece.unwrap();
            let y = rest_y(g0.board@, p, p.y as int);
            let landed = Piece { y: y as i32, ..p };
            &&& 0 <= p.y - y
            &&& forall|i: int| 0 <= i < 4 ==> p.y - y <= #[trigger] p.blocks()[i].1
            &&& fits(g0.board@, p.piece_type, p.rotation, p.x as int, y)
            &&& !fits(g0.board@, p.piece_type, p.rotation, p.x as int, y - 1)
            &&& (forall|k: int| 0 <= k < TOTAL_HEIGHT ==> !row_full(#[trigger] rows_of(locked_cells(g0.board@, landed))[k]))
                ==> forall|i: int|
                0 <= i < 4 && landed.blocks()[i].1 < TOTAL_HEIGHT ==> g1.board@[cell_index(
                #[trigger] landed.blocks()[i].0,
                landed.blocks()[i].1,
            )] == piece_cell(p.piece_type)
        }),
{
    let p = g0.current_piece.unwrap();
    let cells = g0.board@;
    lemma_rest_y_lands(cells, p, p.y as int);
    let y = rest_y(cells, p, p.y as int);
    let landed = Piece { y: y as i32, ..p };
    assert(landed.blocks() =~= cells_of(p.piece_type, p.rotation, p.x as int, y));
    if y < p.y {
        assert(fits(cells, p.piece_type, p.rotation, p.x as int, y));
    }
    assert(all_free(cells, landed.blocks()));
    assert forall|i: int| 0 <= i < 4 implies p.y - y <= #[trigger] p.blocks()[i].1 by {
        assert(position_free(cells, landed.blocks()[i].0, landed.blocks()[i].1));
        assert(landed.blocks()[i].1 == p.blocks()[i].1 - (p.y - y));
    }
    let locked = locked_cells(cells, landed);
    if forall|k: int| 0 <= k < TOTAL_HEIGHT ==> !row_full(#[trigger] rows_of(locked)[k]) {
        lemma_lock_positions_writes(cells, landed.blocks(), piece_cell(p.piece_type));
        lemma_kept_rows_none_full(rows_of(locked));
        assert(cleared_rows(rows_of(locked)) =~= rows_of(locked));
        lemma_rows_determine_cells(g1.board@, locked);
        assert forall|i: int| 0 <= i < 4 && landed.blocks()[i].1 < TOTAL_HEIGHT implies g1.board@[cell_index(
            #[trigger] landed.blocks()[i].0,
            landed.blocks()[i].1,
        )] == piece_cell(p.piece_type) by {
            assert(position_free(cells, landed.blocks()[i].0, landed.blocks()[i].1));
        }
    }
}

/// Locking into an empty board writes nothing but the locked positions.
proof fn lemma_lock_on_empty_only_blocks(cells: Seq<Cell>, ps: Seq<(int, int)>, c: Cell, j: int)
    requires
        cells.len() == CELL_COUNT,
        forall|k: int| 0 <= k < cells.len() ==> cells[k] == Cell::Empty,
        0 <= j < CELL_COUNT,
        lock_positions(cells, ps, c)[j] != Cell::Empty,
    ensures
        exists|i: int|
            0 <= i < ps.len() && in_bounds(ps[i].0, ps[i].1) && #[trigger] cell_index(ps[i].0, ps[i].1)
                == j,
    decreases ps.len(),
{
    lemma_lock_positions_writes(cells, ps, c);
    if ps.len() > 0 {
        let rest = ps.drop_last();
        let last = ps.last();
        lemma_lock_positions_writes(cells, rest, c);
        if in_bounds(last.0, last.1) && cell_index(last.0, last.1) == j {
            assert(ps[ps.len() - 1] == last);
        } else {
            lemma_lock_on_empty_only_blocks(cells, rest, c, j);
            let i = choose|i: int|
                0 <= i < rest.len() && in_bounds(rest[i].0, rest[i].1) && #[trigger] cell_index(
                    rest[i].0,
                    rest[i].1,
                ) == j;
            assert(ps[i] == rest[i]);
        }
    }
}

/// Locking a piece into an empty board completes no row: a row needs both
/// side columns, and a piece spans no more than five columns.
proof fn lemma_lock_on_empty_board_clears_nothing(cells: Seq<Cell>, p: Piece)
    requires
        cells.len() == CELL_COUNT,
        forall|k: int| 0 <= k < cells.len() ==> cells[k] == Cell::Empty,
    ensures
        full_rows(locked_cells(cells, p)) == 0,
{
    let locked = locked_cells(cells, p);
    let rows = rows_of(locked);
    lemma_lock_positions_writes(cells, p.blocks(), piece_cell(p.piece_type));
    lemma_blocks_near_origin(p);
    assert forall|y: int| 0 <= y < rows.len() implies !row_full(#[trigger] rows[y]) by {
        if row_full(rows[y]) {
            assert(rows[y][0] == locked[cell_index(0, y)]);
            assert(rows[y][9] == locked[cell_index(9, y)]);
            lemma_lock_on_empty_only_blocks(cells, p.blocks(), piece_cell(p.piece_type), cell_index(0, y));
            lemma_lock_on_empty_only_blocks(cells, p.blocks(), piece_cell(p.piece_type), cell_index(9, y));
            let b = p.blocks();
            let i0 = choose|i: int|
                0 <= i < b.len() && in_bounds(b[i].0, b[i].1) && #[trigger] cell_index(b[i].0, b[i].1)
                    == cell_index(0, y);
            let i9 = choose|i: int|
                0 <= i < b.len() && in_bounds(b[i].0, b[i].1) && #[trigger] cell_index(b[i].0, b[i].1)
                    == cell_index(9, y);
            assert(b[i0].0 == 0);
            assert(b[i9].0 == 9);
        }
    }
    lemma_kept_rows_none_full(rows);
}

/// What stays true while a fresh game's piece falls tick after tick.
proof fn lemma_ticks_keep_fresh(gs: Seq<Game>, rs: Seq<MoveResult>, j: int)
    requires
        is_new_game(gs[0]),
        gs.len() == rs.len() + 1,
        forall|i: int| 0 <= i < rs.len() ==> #[trigger] tick_rel(gs[i], gs[i + 1], rs[i]),
        0 <= j < rs.len(),
        forall|i: int| 0 <= i < j ==> #[trigger] rs[i] == MoveResult::Success,
    ensures
        gs[j].board == gs[0].board,
        gs[j].score == 0,
        gs[j].lines_cleared == 0,
        gs[j].level == 1,
        !gs[j].game_over,
        gs[j].current_piece is Some,
    decreases j,
{
    if j > 0 {
        lemma_ticks_keep_fresh(gs, rs, j - 1);
        let i = j - 1;
        assert(tick_rel(gs[i], gs[i + 1], rs[i]));
        assert(rs[j - 1] == MoveResult::Success);
    }
}

/// Ticking a fresh game without input until its first piece locks: the
/// piece falls through an empty board and locks without completing a row,
/// so no rows are cleared, no points are scored, and the next piece is
/// falling.
pub proof fn lemma_first_lock_scores_nothing(gs: Seq<Game>, rs: Seq<MoveResult>)
    requires
        is_new_game(gs[0]),
        rs.len() > 0,
        gs.len() == rs.len() + 1,
        forall|i: int| 0 <= i < rs.len() ==> #[trigger] tick_rel(gs[i], gs[i + 1], rs[i]),
        forall|i: int| 0 <= i < rs.len() - 1 ==> #[trigger] rs[i] == MoveResult::Success,
        rs.last() == MoveResult::Locked,
    ensures
        gs.last().lines_cleared == 0,
        gs.last().score == 0,
        gs.last().level == 1,
        !gs.last().game_over,
        gs.last().current_piece is Some,
{
    let k = rs.len() - 1;
    lemma_ticks_keep_fresh(gs, rs, k);
    let g = gs[k];
    assert(tick_rel(gs[k], gs[k + 1], rs[k]));
    assert(gs.last() == gs[k + 1]);
    let p = g.current_piece.unwrap();
    lemma_lock_on_empty_board_clears_nothing(g.board@, p);
}

impl Game {
    /// Board well formed, level consistent with the cleared rows, and the
    /// falling piece's origin within `COORD_LIMIT`.
    pub open spec fn wf(&self) -> bool {
        &&& self.board.wf()
        &&& self.level == level_for(self.lines_cleared as int)
        &&& (self.current_piece matches Some(p) ==> p.in_range() && in_columns(p))
    }

    /// A new game: empty board, score 0, level 1, a fresh bag, and the first
    /// piece falling from the spawn position.
    pub fn new() -> (r: Game)
        ensures
            is_new_game(r),
    {
        let mut game = Game {
            board: Board::new(),
            current_piece: None,
            next_piece: PieceType::T,
            hold_piece: None,
            can_hold: true,
            score: 0,
            level: 1,
            lines_cleared: 0,
            game_over: false,
            bag: Bag::new(),
        };
        game.bag.refill();
        let ghost s = game.bag@;
        proof {
            broadcast use vstd::seq_lib::group_to_multiset_ensures;

            assert(s.to_multiset().len() == all_piece_types().to_multiset().len());
        }
        game.next_piece = game.bag.draw();
        proof {
            lemma_spawn_free_on_empty(game.board@, game.next_piece);
        }
        game.spawn_piece();
        assert(game.bag@ =~= s.take(5));
        game
    }

    /// Adds `points` to the score, saturating at `u32::MAX`.
    fn add_points(&mut self, points: u64)
        requires
            points <= 0x100_0000_0000,
        ensures
            *final(self) == (Game { score: saturated(old(self).score + points), ..*old(self) }),
    {
        let total = self.score as u64 + points;
        self.score = if total > u32::MAX as u64 {
            u32::MAX
        } else {
            total as u32
        };
    }

    /// Points for clearing `lines` rows at once at the current level,
    /// saturating at `u32::MAX`.
    pub fn calculate_line_score(&self, lines: u32) -> (r: u32)
        ensures
            r == saturated(line_score(lines as int, self.level as int)),
    {
        let base: u64 = match lines {
            1 => 100,
            2 => 300,
            3 => 500,
            4 => 800,
            _ => 0,
        };
        let level = self.level as u64;
        assert(base * level <= 800 * 0xffff_ffff) by (nonlinear_arith)
            requires
                base <= 800,
                level <= 0xffff_ffff,
        ;
        let total = base * level;
        if total > u32::MAX as u64 {
            u32::MAX
        } else {
            total as u32
        }
    }

    /// Recomputes the level from the cleared rows: one level per ten rows.
    fn update_level(&mut self)
        ensures
            *final(self) == (Game {
                level: level_for(old(self).lines_cleared as int) as u32,
                ..*old(self)
            }),
    {
        self.level = (self.lines_cleared / 10) + 1;
    }

    /// Locks the falling piece into the board, clears and scores full rows,
    /// then ends the game on a top-out or spawns the next piece.
    fn lock_piece(&mut self) -> (r: MoveResult)
        requires
            old(self).wf(),
        ensures
            final(self).wf(),
            lock_rel(*old(self), *final(self), r),
    {
        let piece = match self.current_piece {
            None => return MoveResult::Failed,
            Some(p) => p,
        };
        self.current_piece = None;
        let blocks = piece.get_blocks();
        let cell = piece.piece_type.to_cell();
        self.board.lock_cells(&blocks, cell);
        let lines = self.board.clear_lines();
        if lines > 0 {
            self.lines_cleared = self.lines_cleared.saturating_add(lines);
            let points = self.calculate_line_score(lines);
            self.add_points(points as u64);
            self.update_level();
        }
        if self.board.is_topped_out() {
            self.game_over = true;
            return MoveResult::GameOver;
        }
        if !self.spawn_piece() {
            return MoveResult::GameOver;
        }
        MoveResult::Locked
    }

    /// Takes the preview piece and draws a new preview; installs the piece at
    /// the spawn position if it has room (re-enabling hold), else ends the game.
    pub fn spawn_piece(&mut self) -> (r: bool)
        requires
            old(self).wf(),
        ensures
            final(self).wf(),
            spawn_rel(*old(self), *final(self), r),
    {
        let piece_type = self.next_piece;
        proof {
            lemma_spawned_in_columns(piece_type);
        }
        self.next_piece = self.bag.draw();
        let piece = Piece::new(piece_type);
        let blocks = piece.get_blocks();
        if self.board.check_collision(&blocks) {
            self.game_over = true;
            self.current_piece = None;
            return false;
        }
        self.current_piece = Some(piece);
        self.can_hold = true;
        true
    }

    /// Moves the falling piece by `(dx, dy)` if it fits there.
    pub fn move_piece(&mut self, dx: i32, dy: i32) -> (r: MoveResult)
        requires
            old(self).wf(),
        ensures
            final(self).wf(),
            (*final(self), r) == move_outcome(*old(self), dx as int, dy as int),
    {
        if self.game_over {
            return MoveResult::GameOver;
        }
        match self.current_piece {
            None => MoveResult::Failed,
            Some(piece) => {
                let nx = piece.x as i64 + dx as i64;
                let ny = piece.y as i64 + dy as i64;
                let limit = COORD_LIMIT as i64;
                if nx < -limit || nx > limit || ny < -limit || ny > limit {
                    return MoveResult::Failed;
                }
                let new_blocks = piece.get_blocks_after_move(dx, dy);
                if self.board.check_collision(&new_blocks) {
                    MoveResult::Failed
                } else {
                    self.current_piece = Some(Piece { x: piece.x + dx, y: piece.y + dy, ..piece });
                    MoveResult::Success
                }
            },
        }
    }

    /// Turns the falling piece a quarter turn, trying the kick candidates in
    /// order and keeping the first placement that fits. The O piece does not turn.
    pub fn rotate(&mut self, clockwise: bool) -> (r: MoveResult)
        requires
            old(self).wf(),
        ensures
            final(self).wf(),
            (*final(self), r) == rotate_outcome(*old(self), clockwise),
    {
        if self.game_over {
            return MoveResult::GameOver;
        }
        match self.current_piece {
            None => MoveResult::Failed,
            Some(piece) => {
                if piece.piece_type == PieceType::O {
                    return MoveResult::Success;
                }
                let kicks = piece.get_kicks(clockwise);
                proof {
                    lemma_kicks_small(
                        piece.piece_type,
                        piece.rotation,
                        turned(piece.rotation, clockwise),
                    );
                }
                let mut k: usize = 0;
                while k < 5
                    invariant
                        self.wf(),
                        *self == *old(self),
                        self.current_piece == Some(piece),
                        !old(self).game_over,
                        piece.piece_type != PieceType::O,
                        piece.in_range(),
                        0 <= k <= 5,
                        kicks@.len() == 5,
                        forall|j: int|
                            0 <= j < 5 ==> (kicks@[j].0 as int, kicks@[j].1 as int) == kicks_for(
                                piece.piece_type,
                                piece.rotation,
                                turned(piece.rotation, clockwise),
                            )[j],
                        forall|j: int|
                            0 <= j < 5 ==> -2 <= #[trigger] kicks_for(
                                piece.piece_type,
                                piece.rotation,
                                turned(piece.rotation, clockwise),
                            )[j].0 <= 2 && -2 <= kicks_for(
                                piece.piece_type,
                                piece.rotation,
                                turned(piece.rotation, clockwise),
                            )[j].1 <= 2,
                        first_fit(self.board@, piece, clockwise, 0) == first_fit(
                            self.board@,
                            piece,
                            clockwise,
                            k as int,
                        ),
                    decreases 5 - k,
                {
                    let kick = kicks[k];
                    assert(kicks@[k as int] == kick);
                    let nx = piece.x + kick.0;
                    let ny = piece.y + kick.1;
                    if -COORD_LIMIT <= nx && nx <= COORD_LIMIT && -COORD_LIMIT <= ny && ny <= COORD_LIMIT {
                        let blocks = piece.get_blocks_after_rotation(clockwise, kick);
                        if !self.board.check_collision(&blocks) {
                            let ghost to = turned(piece.rotation, clockwise);
                            assert(fits(self.board@, piece.piece_type, to, nx as int, ny as int));
                            assert(first_fit(self.board@, piece, clockwise, k as int) == Some(
                                Piece { rotation: to, x: nx, y: ny, ..piece },
                            ));
                            let mut turned_piece = piece;
                            turned_piece.rotate(clockwise);
                            turned_piece.x = nx;
                            turned_piece.y = ny;
                            self.current_piece = Some(turned_piece);
                            return MoveResult::Success;
                        }
                    }
                    k = k + 1;
                }
                MoveResult::Failed
            },
        }
    }
}

impl Default for Game {
    fn default() -> (r: Game)
        ensures
            is_new_game(r),
    {
        Game::new()
    }
}

impl Game {
    /// Moves the falling piece down one row; on success awards one point.
    pub fn soft_drop(&mut self) -> (r: MoveResult)
        requires
            old(self).wf(),
        ensures
            final(self).wf(),
            soft_drop_rel(*old(self), *final(self), r),
    {
        let result = self.move_piece(0, -1);
        if result == MoveResult::Success {
            self.add_points(1);
        }
        result
    }

    /// Drops the falling piece as far as it fits, awards two points per row
    /// fallen, and locks it.
    pub fn hard_drop(&mut self) -> (r: MoveResult)
        requires
            old(self).wf(),
        ensures
            final(self).wf(),
            hard_drop_rel(*old(self), *final(self), r),
    {
        if self.game_over {
            return MoveResult::GameOver;
        }
        let ghost start = *self;
        let mut drop_distance: u32 = 0;
        if let Some(p) = self.current_piece {
            proof {
                lemma_rest_y_lands(self.board@, p, p.y as int);
            }
            loop
                invariant
                    self.wf(),
                    !self.game_over,
                    self.current_piece matches Some(q) && q == (Piece { y: q.y, ..p }) && *self == (
                    Game { current_piece: Some(q), ..start }) && drop_distance == p.y - q.y
                        && rest_y(self.board@, p, p.y as int) <= q.y <= p.y && rest_y(
                        self.board@,
                        p,
                        q.y as int,
                    ) == rest_y(self.board@, p, p.y as int),
                    start.current_piece == Some(p),
                    in_coord_range(p.y as int),
                    -COORD_LIMIT <= rest_y(start.board@, p, p.y as int),
                ensures
                    self.current_piece matches Some(q) && q == (Piece {
                        y: rest_y(start.board@, p, p.y as int) as i32,
                        ..p
                    }) && *self == (Game { current_piece: Some(q), ..start }) && drop_distance
                        == p.y - q.y,
                decreases self.current_piece.unwrap().y + COORD_LIMIT,
            {
                let ghost before = *self;
                let m = self.move_piece(0, -1);
                if m != MoveResult::Success {
                    break;
                }
                proof {
                    let q = before.current_piece.unwrap();
                    assert(fits(self.board@, p.piece_type, p.rotation, p.x as int, q.y - 1));
                    assert(rest_y(self.board@, p, q.y as int) == rest_y(self.board@, p, q.y - 1));
                    lemma_rest_y_lands(self.board@, p, q.y - 1);
                }
                drop_distance = drop_distance + 1;
            }
        }
        self.add_points(drop_distance as u64 * 2);
        self.lock_piece()
    }

    /// One gravity step: spawns a piece if none is falling, else moves it down
    /// one row, locking it where it cannot move.
    pub fn tick(&mut self) -> (r: MoveResult)
        requires
            old(self).wf(),
        ensures
            final(self).wf(),
            tick_rel(*old(self), *final(self), r),
    {
        if self.game_over {
            return MoveResult::GameOver;
        }
        if self.current_piece.is_none() {
            if !self.spawn_piece() {
                return MoveResult::GameOver;
            }
            return MoveResult::Success;
        }
        let move_result = self.move_piece(0, -1);
        if move_result == MoveResult::Failed {
            self.lock_piece()
        } else {
            move_result
        }
    }

    /// Swaps the falling piece into the hold slot (once per spawned piece).
    pub fn hold(&mut self) -> (r: MoveResult)
        requires
            old(self).wf(),
        ensures
            final(self).wf(),
            hold_rel(*old(self), *final(self), r),
    {
        if self.game_over || !self.can_hold {
            return MoveResult::Failed;
        }
        let current = match self.current_piece {
            None => return MoveResult::Failed,
            Some(p) => p,
        };
        let current_type = current.piece_type;
        match self.hold_piece {
            Some(held) => {
                proof {
                    lemma_spawned_in_columns(held);
                }
                self.hold_piece = Some(current_type);
                self.current_piece = Some(Piece::new(held));
            },
            None => {
                self.hold_piece = Some(current_type);
                self.spawn_piece();
            },
        }
        self.can_hold = false;
        MoveResult::Success
    }

    /// Origin row at which the falling piece would come to rest.
    pub fn get_ghost_y(&self) -> (r: Option<i32>)
        requires
            self.wf(),
        ensures
            match self.current_piece {
                None => r.is_none(),
                Some(p) => r matches Some(v) && v as int == rest_y(self.board@, p, p.y as int),
            },
    {
        let piece = match self.current_piece {
            None => return None,
            Some(p) => p,
        };
        proof {
            lemma_rest_y_lands(self.board@, piece, piece.y as int);
        }
        let mut ghost_y = piece.y;
        loop
            invariant
                self.wf(),
                self.current_piece == Some(piece),
                in_coord_range(ghost_y as int),
                rest_y(self.board@, piece, ghost_y as int) == rest_y(self.board@, piece, piece.y as int),
            ensures
                ghost_y == rest_y(self.board@, piece, piece.y as int),
            decreases ghost_y + COORD_LIMIT,
        {
            if ghost_y <= -COORD_LIMIT {
                break;
            }
            let probe = Piece { y: ghost_y, ..piece };
            let test_blocks = probe.get_blocks_after_move(0, -1);
            if self.board.check_collision(&test_blocks) {
                break;
            }
            ghost_y = ghost_y - 1;
        }
        Some(ghost_y)
    }

    /// Whether gravity is due after `elapsed_ms` ms (see `drop_due`).
    pub fn gravity_due(&self, elapsed_ms: u64) -> (r: bool)
        requires
            self.wf(),
        ensures
            r == drop_due(
                elapsed_ms as int,
                drop_frames(self.level as int) * 1000 / 60,
                self.current_piece,
            ),
    {
        let base = self.get_drop_interval() as u128;
        match self.current_piece {
            None => elapsed_ms as u128 >= base,
            Some(p) => {
                if p.y < 184 {
                    let factor = (184 - p.y) as u128;
                    let e = elapsed_ms as u128;
                    assert(e * factor <= 0xffff_ffff_ffff_ffff * 0x1_0000_0000) by (nonlinear_arith)
                        requires
                            e <= 0xffff_ffff_ffff_ffff,
                            factor <= 0x1_0000_0000,
                    ;
                    e * factor >= 160 * base
                } else {
                    p.y > 184
                }
            },
        }
    }

    /// The occupied visible cells as `(x, y, tag)`, bottom row first, each row
    /// left to right.
    pub fn get_board_cells(&self) -> (r: Vec<(i32, i32, u8)>)
        requires
            self.wf(),
        ensures
            r@.map_values(|t: (i32, i32, u8)| entry_view(t)) == occupied_visible(self.board@).map_values(
                |p: (int, int)| board_entry(self.board@, p),
            ),
    {
        let ghost cells = self.board@;
        let mut out: Vec<(i32, i32, u8)> = Vec::new();
        let mut y: usize = 0;
        while y < HEIGHT
            invariant
                self.wf(),
                cells == self.board@,
                y <= HEIGHT,
                out@.map_values(|t: (i32, i32, u8)| entry_view(t)) == occupied_rows(cells, y as int).map_values(|q: (int, int)| board_entry(cells, q)),
            decreases HEIGHT - y,
        {
            let mut x: usize = 0;
            while x < WIDTH
                invariant
                    self.wf(),
                    cells == self.board@,
                    y < HEIGHT,
                    x <= WIDTH,
                    out@.map_values(|t: (i32, i32, u8)| entry_view(t)) == (occupied_rows(cells, y as int) + occupied_in_row(
                        cells,
                        y as int,
                        x as int,
                    )).map_values(|q: (int, int)| board_entry(cells, q)),
                decreases WIDTH - x,
            {
                let cell = self.board.get(x as i32, y as i32);
                let ghost before = occupied_rows(cells, y as int) + occupied_in_row(cells, y as int, x as int);
                let ghost after = occupied_rows(cells, y as int) + occupied_in_row(cells, y as int, x + 1);
                assert(cell == Some(cells[cell_index(x as int, y as int)]));
                if let Some(c) = cell {
                    if !c.is_empty() {
                        let ghost p = (x as int, y as int);
                        assert(after =~= before.push(p));
                        assert(after.map_values(|q: (int, int)| board_entry(cells, q)) =~= before.map_values(|q: (int, int)| board_entry(cells, q)).push(board_entry(cells, p)));
                        let ghost prev = out@;
                        let xi = x as i32;
                        let yi = y as i32;
                        assert(xi as int == x as int);
                        assert(yi as int == y as int);
                        let code = c.code();
                        assert(code == cell_code(cells[cell_index(x as int, y as int)]));
                        out.push((xi, yi, code));

                        assert(out@.map_values(|t: (i32, i32, u8)| entry_view(t)) =~= prev.map_values(|t: (i32, i32, u8)| entry_view(t)).push(board_entry(cells, p)));
                    } else {
                        assert(after =~= before);
                    }
                }
                x = x + 1;
            }
            assert(occupied_rows(cells, y + 1) == occupied_rows(cells, y as int) + occupied_in_row(cells, y as int, WIDTH as int));
            y = y + 1;
        }
        out
    }

    /// Gravity period in milliseconds for the current level (NES-style curve).
    pub fn get_drop_interval(&self) -> (r: u32)
        ensures
            r == drop_frames(self.level as int) * 1000 / 60,
    {
        let frames: u32 = if self.level <= 1 {
            48
        } else if self.level == 2 {
            43
        } else if self.level == 3 {
            38
        } else if self.level == 4 {
            33
        } else if self.level == 5 {
            28
        } else if self.level == 6 {
            23
        } else if self.level == 7 {
            18
        } else if self.level == 8 {
            13
        } else if self.level == 9 {
            8
        } else if self.level <= 12 {
            6
        } else if self.level <= 15 {
            5
        } else if self.level <= 18 {
            4
        } else if self.level <= 28 {
            3
        } else {
            2
        };
        (frames * 1000) / 60
    }
}

} // verus!
