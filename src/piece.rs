use crate::board::{int_pairs, Cell};
use vstd::prelude::*;

verus! {

/// Bound on a piece's origin coordinates; keeps every block coordinate well
/// inside `i32`.
pub const COORD_LIMIT: i32 = 1_000_000_000;

/// Column of a freshly spawned piece's origin (`WIDTH / 2 - 1`).
pub const SPAWN_X: i32 = 4;

/// Row of a freshly spawned piece's origin (`HEIGHT`, the bottom buffer row).
pub const SPAWN_Y: i32 = 20;

/// The seven tetromino shapes.
#[derive(Clone, Copy, PartialEq, Eq, Debug, Structural)]
pub enum PieceType {
    I,
    O,
    T,
    S,
    Z,
    J,
    L,
}

/// The colour that a piece of type `pt` leaves on the board.
pub open spec fn piece_cell(pt: PieceType) -> Cell {
    match pt {
        PieceType::I => Cell::I,
        PieceType::O => Cell::O,
        PieceType::T => Cell::T,
        PieceType::S => Cell::S,
        PieceType::Z => Cell::Z,
        PieceType::J => Cell::J,
        PieceType::L => Cell::L,
    }
}

/// Every piece type, each once.
pub open spec fn all_piece_types() -> Seq<PieceType> {
    seq![
        PieceType::I,
        PieceType::O,
        PieceType::T,
        PieceType::S,
        PieceType::Z,
        PieceType::J,
        PieceType::L,
    ]
}

/// Block offsets of each shape at rotation `R0`, relative to the rotation origin.
pub open spec fn base_offsets(pt: PieceType) -> Seq<(int, int)> {
    match pt {
        PieceType::I => seq![(-1, 0), (0, 0), (1, 0), (2, 0)],
        PieceType::O => seq![(0, 0), (1, 0), (0, 1), (1, 1)],
        PieceType::T => seq![(-1, 0), (0, 0), (1, 0), (0, 1)],
        PieceType::S => seq![(0, 0), (1, 0), (-1, 1), (0, 1)],
        PieceType::Z => seq![(-1, 0), (0, 0), (0, 1), (1, 1)],
        PieceType::J => seq![(-1, 1), (-1, 0), (0, 0), (1, 0)],
        PieceType::L => seq![(-1, 0), (0, 0), (1, 0), (1, 1)],
    }
}

impl PieceType {
    pub fn to_cell(self) -> (r: Cell)
        ensures
            r == piece_cell(self),
    {
        match self {
            PieceType::I => Cell::I,
            PieceType::O => Cell::O,
            PieceType::T => Cell::T,
            PieceType::S => Cell::S,
            PieceType::Z => Cell::Z,
            PieceType::J => Cell::J,
            PieceType::L => Cell::L,
        }
    }

    pub fn all() -> (r: [PieceType; 7])
        ensures
            r@ == all_piece_types(),
    {
        let r = [
            PieceType::I,
            PieceType::O,
            PieceType::T,
            PieceType::S,
            PieceType::Z,
            PieceType::J,
            PieceType::L,
        ];
        assert(r@ =~= all_piece_types());
        r
    }

    fn base_blocks(self) -> (r: [(i32, i32); 4])
        ensures
            int_pairs(r@) == base_offsets(self),
    {
        let r = match self {
            PieceType::I => [(-1, 0), (0, 0), (1, 0), (2, 0)],
            PieceType::O => [(0, 0), (1, 0), (0, 1), (1, 1)],
            PieceType::T => [(-1, 0), (0, 0), (1, 0), (0, 1)],
            PieceType::S => [(0, 0), (1, 0), (-1, 1), (0, 1)],
            PieceType::Z => [(-1, 0), (0, 0), (0, 1), (1, 1)],
            PieceType::J => [(-1, 1), (-1, 0), (0, 0), (1, 0)],
            PieceType::L => [(-1, 0), (0, 0), (1, 0), (1, 1)],
        };
        assert(int_pairs(r@) =~= base_offsets(self));
        r
    }

    /// Block offsets of the shape at rotation `R0`, for previews.
    pub fn preview_blocks(self) -> (r: [(i32, i32); 4])
        ensures
            int_pairs(r@) == base_offsets(self),
    {
        self.base_blocks()
    }
}

/// The four rotation states, a quarter turn apart.
#[derive(Clone, Copy, PartialEq, Eq, Debug, Structural)]
pub enum Rotation {
    R0,
    R90,
    R180,
    R270,
}

pub open spec fn rotation_cw(r: Rotation) -> Rotation {
    match r {
        Rotation::R0 => Rotation::R90,
        Rotation::R90 => Rotation::R180,
        Rotation::R180 => Rotation::R270,
        Rotation::R270 => Rotation::R0,
    }
}

pub open spec fn rotation_ccw(r: Rotation) -> Rotation {
    match r {
        Rotation::R0 => Rotation::R270,
        Rotation::R90 => Rotation::R0,
        Rotation::R180 => Rotation::R90,
        Rotation::R270 => Rotation::R180,
    }
}

/// The rotation reached by one quarter turn in the given direction.
pub open spec fn turned(r: Rotation, clockwise: bool) -> Rotation {
    if clockwise {
        rotation_cw(r)
    } else {
        rotation_ccw(r)
    }
}

impl Rotation {
    pub fn clockwise(self) -> (r: Rotation)
        ensures
            r == rotation_cw(self),
    {
        match self {
            Rotation::R0 => Rotation::R90,
            Rotation::R90 => Rotation::R180,
            Rotation::R180 => Rotation::R270,
            Rotation::R270 => Rotation::R0,
        }
    }

    pub fn counter_clockwise(self) -> (r: Rotation)
        ensures
            r == rotation_ccw(self),
    {
        match self {
            Rotation::R0 => Rotation::R270,
            Rotation::R90 => Rotation::R0,
            Rotation::R180 => Rotation::R90,
            Rotation::R270 => Rotation::R180,
        }
    }
}

/// A block offset turned into rotation state `r`.
pub open spec fn rotated(r: Rotation, o: (int, int)) -> (int, int) {
    match r {
        Rotation::R0 => (o.0, o.1),
        Rotation::R90 => (o.1, -o.0),
        Rotation::R180 => (-o.0, -o.1),
        Rotation::R270 => (-o.1, o.0),
    }
}

/// Absolute block positions of a piece of type `pt` in rotation `r` with origin `(x, y)`.
pub open spec fn cells_of(pt: PieceType, r: Rotation, x: int, y: int) -> Seq<(int, int)> {
    Seq::new(
        4,
        |i: int| (x + rotated(r, base_offsets(pt)[i]).0, y + rotated(r, base_offsets(pt)[i]).1),
    )
}

/// Row of the kick tables used for a turn from `from` to `to`.
pub open spec fn kick_index(from: Rotation, to: Rotation) -> int {
    match (from, to) {
        (Rotation::R0, Rotation::R90) => 0,
        (Rotation::R90, Rotation::R0) => 1,
        (Rotation::R90, Rotation::R180) => 2,
        (Rotation::R180, Rotation::R90) => 3,
        (Rotation::R180, Rotation::R270) => 4,
        (Rotation::R270, Rotation::R180) => 5,
        (Rotation::R270, Rotation::R0) => 6,
        (Rotation::R0, Rotation::R270) => 7,
        _ => 0,
    }
}

/// Super Rotation System kick candidates shared by J, L, S, T and Z.
pub open spec fn jlstz_kicks(index: int) -> Seq<(int, int)> {
    if index == 0 || index == 3 {
        seq![(0, 0), (-1, 0), (-1, 1), (0, -2), (-1, -2)]
    } else if index == 1 || index == 2 {
        seq![(0, 0), (1, 0), (1, -1), (0, 2), (1, 2)]
    } else if index == 4 || index == 7 {
        seq![(0, 0), (1, 0), (1, 1), (0, -2), (1, -2)]
    } else {
        seq![(0, 0), (-1, 0), (-1, -1), (0, 2), (-1, 2)]
    }
}

/// Super Rotation System kick candidates of the I piece.
pub open spec fn i_kicks(index: int) -> Seq<(int, int)> {
    if index == 0 || index == 5 {
        seq![(0, 0), (-2, 0), (1, 0), (-2, -1), (1, 2)]
    } else if index == 1 || index == 4 {
        seq![(0, 0), (2, 0), (-1, 0), (2, 1), (-1, -2)]
    } else if index == 2 || index == 7 {
        seq![(0, 0), (-1, 0), (2, 0), (-1, 2), (2, -1)]
    } else {
        seq![(0, 0), (1, 0), (-2, 0), (1, -2), (-2, 1)]
    }
}

/// The five kick candidates, in priority order, for turning `pt` from `from` to `to`.
pub open spec fn kicks_for(pt: PieceType, from: Rotation, to: Rotation) -> Seq<(int, int)> {
    match pt {
        PieceType::I => i_kicks(kick_index(from, to)),
        PieceType::O => seq![(0, 0), (0, 0), (0, 0), (0, 0), (0, 0)],
        _ => jlstz_kicks(kick_index(from, to)),
    }
}

fn get_kick_index(from: Rotation, to: Rotation) -> (r: usize)
    ensures
        r == kick_index(from, to),
{
    match (from, to) {
        (Rotation::R0, Rotation::R90) => 0,
        (Rotation::R90, Rotation::R0) => 1,
        (Rotation::R90, Rotation::R180) => 2,
        (Rotation::R180, Rotation::R90) => 3,
        (Rotation::R180, Rotation::R270) => 4,
        (Rotation::R270, Rotation::R180) => 5,
        (Rotation::R270, Rotation::R0) => 6,
        (Rotation::R0, Rotation::R270) => 7,
        _ => 0,
    }
}

fn jlstz_kick_row(index: usize) -> (r: [(i32, i32); 5])
    ensures
        int_pairs(r@) == jlstz_kicks(index as int),
{
    let r = if index == 0 || index == 3 {
        [(0, 0), (-1, 0), (-1, 1), (0, -2), (-1, -2)]
    } else if index == 1 || index == 2 {
        [(0, 0), (1, 0), (1, -1), (0, 2), (1, 2)]
    } else if index == 4 || index == 7 {
        [(0, 0), (1, 0), (1, 1), (0, -2), (1, -2)]
    } else {
        [(0, 0), (-1, 0), (-1, -1), (0, 2), (-1, 2)]
    };
    assert(int_pairs(r@) =~= jlstz_kicks(index as int));
    r
}

fn i_kick_row(index: usize) -> (r: [(i32, i32); 5])
    ensures
        int_pairs(r@) == i_kicks(index as int),
{
    let r = if index == 0 || index == 5 {
        [(0, 0), (-2, 0), (1, 0), (-2, -1), (1, 2)]
    } else if index == 1 || index == 4 {
        [(0, 0), (2, 0), (-1, 0), (2, 1), (-1, -2)]
    } else if index == 2 || index == 7 {
        [(0, 0), (-1, 0), (2, 0), (-1, 2), (2, -1)]
    } else {
        [(0, 0), (1, 0), (-2, 0), (1, -2), (-2, 1)]
    };
    assert(int_pairs(r@) =~= i_kicks(index as int));
    r
}

pub open spec fn in_coord_range(v: int) -> bool {
    -COORD_LIMIT <= v <= COORD_LIMIT
}

/// Every kick candidate moves the origin by at most two cells on each axis.
pub proof fn lemma_kicks_small(pt: PieceType, from: Rotation, to: Rotation)
    ensures
        kicks_for(pt, from, to).len() == 5,
        forall|k: int|
            0 <= k < 5 ==> -2 <= #[trigger] kicks_for(pt, from, to)[k].0 <= 2 && -2
                <= kicks_for(pt, from, to)[k].1 <= 2,
        kicks_for(pt, from, to)[0] == (0int, 0int),
{
}

/// A falling tetromino: its shape, rotation state and origin on the grid.
#[derive(Clone, Copy, PartialEq, Eq, Debug, Structural)]
pub struct Piece {
    pub piece_type: PieceType,
    pub x: i32,
    pub y: i32,
    pub rotation: Rotation,
}

/// A fresh piece of type `pt` at the spawn position.
pub open spec fn spawned(pt: PieceType) -> Piece {
    Piece { piece_type: pt, x: SPAWN_X, y: SPAWN_Y, rotation: Rotation::R0 }
}

/// Every block of a piece lies within two cells of its origin on each axis.
pub proof fn lemma_blocks_near_origin(p: Piece)
    ensures
        forall|i: int|
            0 <= i < 4 ==> -2 <= #[trigger] p.blocks()[i].0 - p.x <= 2 && -2 <= p.blocks()[i].1 - p.y
                <= 2,
{
}

impl Piece {
    /// The origin lies within `COORD_LIMIT` on both axes.
    pub open spec fn in_range(&self) -> bool {
        in_coord_range(self.x as int) && in_coord_range(self.y as int)
    }

    /// Absolute positions of the piece's four blocks.
    pub open spec fn blocks(&self) -> Seq<(int, int)> {
        cells_of(self.piece_type, self.rotation, self.x as int, self.y as int)
    }

    pub fn new(piece_type: PieceType) -> (r: Piece)
        ensures
            r == spawned(piece_type),
    {
        Piece { piece_type, x: SPAWN_X, y: SPAWN_Y, rotation: Rotation::R0 }
    }

    /// Absolute positions of the piece's four blocks.
    pub fn get_blocks(&self) -> (r: [(i32, i32); 4])
        requires
            self.in_range(),
        ensures
            int_pairs(r@) == self.blocks(),
    {
        let base = self.piece_type.base_blocks();
        let mut result = [(0i32, 0i32); 4];
        let mut i: usize = 0;
        while i < 4
            invariant
                self.in_range(),
                int_pairs(base@) == base_offsets(self.piece_type),
                0 <= i <= 4,
                forall|j: int| 0 <= j < i ==> (result@[j].0 as int, result@[j].1 as int) == self.blocks()[j],
            decreases 4 - i,
        {
            let (bx, by) = base[i];
            assert(base_offsets(self.piece_type)[i as int] == (bx as int, by as int));
            let (rx, ry) = self.rotate_block(bx, by);
            result.set(i, (self.x + rx, self.y + ry));
            i = i + 1;
        }
        assert(int_pairs(result@) =~= self.blocks());
        result
    }

    /// A block offset turned into the piece's rotation state.
    fn rotate_block(&self, x: i32, y: i32) -> (r: (i32, i32))
        requires
            -2 <= x <= 2,
            -2 <= y <= 2,
        ensures
            (r.0 as int, r.1 as int) == rotated(self.rotation, (x as int, y as int)),
            -2 <= r.0 <= 2,
            -2 <= r.1 <= 2,
    {
        match self.rotation {
            Rotation::R0 => (x, y),
            Rotation::R90 => (y, -x),
            Rotation::R180 => (-x, -y),
            Rotation::R270 => (-y, x),
        }
    }

    /// The five kick candidates, in priority order, for a quarter turn.
    pub fn get_kicks(&self, clockwise: bool) -> (r: [(i32, i32); 5])
        ensures
            int_pairs(r@) == kicks_for(
                self.piece_type,
                self.rotation,
                turned(self.rotation, clockwise),
            ),
    {
        let new_rotation = if clockwise {
            self.rotation.clockwise()
        } else {
            self.rotation.counter_clockwise()
        };
        let kick_index = get_kick_index(self.rotation, new_rotation);
        match self.piece_type {
            PieceType::I => i_kick_row(kick_index),
            PieceType::O => {
                let r = [(0i32, 0i32), (0, 0), (0, 0), (0, 0), (0, 0)];
                assert(int_pairs(r@) =~= kicks_for(self.piece_type, self.rotation, new_rotation));
                r
            },
            _ => jlstz_kick_row(kick_index),
        }
    }

    /// Turns the piece a quarter turn, without any collision check.
    pub fn rotate(&mut self, clockwise: bool)
        ensures
            *final(self) == (Piece { rotation: turned(old(self).rotation, clockwise), ..*old(self) }),
    {
        self.rotation = if clockwise {
            self.rotation.clockwise()
        } else {
            self.rotation.counter_clockwise()
        };
    }

    /// Block positions after moving the piece by `(dx, dy)`.
    pub fn get_blocks_after_move(&self, dx: i32, dy: i32) -> (r: [(i32, i32); 4])
        requires
            self.in_range(),
            in_coord_range(self.x + dx),
            in_coord_range(self.y + dy),
        ensures
            int_pairs(r@) == cells_of(
                self.piece_type,
                self.rotation,
                self.x + dx,
                self.y + dy,
            ),
    {
        let blocks = self.get_blocks();
        let mut result = [(0i32, 0i32); 4];
        let mut i: usize = 0;
        while i < 4
            invariant
                self.in_range(),
                in_coord_range(self.x + dx),
                in_coord_range(self.y + dy),
                int_pairs(blocks@) == self.blocks(),
                0 <= i <= 4,
                forall|j: int|
                    0 <= j < i ==> (result@[j].0 as int, result@[j].1 as int) == cells_of(
                        self.piece_type,
                        self.rotation,
                        self.x + dx,
                        self.y + dy,
                    )[j],
            decreases 4 - i,
        {
            let (x, y) = blocks[i];
            assert((x as int, y as int) == self.blocks()[i as int]);
            result.set(i, (x + dx, y + dy));
            i = i + 1;
        }
        assert(int_pairs(result@) =~= cells_of(
            self.piece_type,
            self.rotation,
            self.x + dx,
            self.y + dy,
        ));
        result
    }

    /// Block positions after a quarter turn followed by the kick offset `kick`.
    pub fn get_blocks_after_rotation(&self, clockwise: bool, kick: (i32, i32)) -> (r: [(i32, i32); 4])
        requires
            self.in_range(),
            in_coord_range(self.x + kick.0),
            in_coord_range(self.y + kick.1),
        ensures
            int_pairs(r@) == cells_of(
                self.piece_type,
                turned(self.rotation, clockwise),
                self.x + kick.0,
                self.y + kick.1,
            ),
    {
        let new_rotation = if clockwise {
            self.rotation.clockwise()
        } else {
            self.rotation.counter_clockwise()
        };
        let turned_piece = Piece { rotation: new_rotation, ..*self };
        let base = self.piece_type.base_blocks();
        let mut result = [(0i32, 0i32); 4];
        let mut i: usize = 0;
        while i < 4
            invariant
                self.in_range(),
                in_coord_range(self.x + kick.0),
                in_coord_range(self.y + kick.1),
                turned_piece.rotation == turned(self.rotation, clockwise),
                int_pairs(base@) == base_offsets(self.piece_type),
                0 <= i <= 4,
                forall|j: int|
                    0 <= j < i ==> (result@[j].0 as int, result@[j].1 as int) == cells_of(
                        self.piece_type,
                        turned(self.rotation, clockwise),
                        self.x + kick.0,
                        self.y + kick.1,
                    )[j],
            decreases 4 - i,
        {
            let (bx, by) = base[i];
            assert(base_offsets(self.piece_type)[i as int] == (bx as int, by as int));
            let (rx, ry) = turned_piece.rotate_block(bx, by);
            result.set(i, (self.x + rx + kick.0, self.y + ry + kick.1));
            i = i + 1;
        }
        assert(int_pairs(result@) =~= cells_of(
            self.piece_type,
            turned(self.rotation, clockwise),
            self.x + kick.0,
            self.y + kick.1,
        ));
        result
    }
}

} // verus!
