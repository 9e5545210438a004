use tetris_core::board::Cell;
use tetris_core::piece::{Piece, PieceType, Rotation};

#[test]
fn test_piece_creation() {
    let piece = Piece::new(PieceType::T);
    assert_eq!(piece.piece_type, PieceType::T);
    assert_eq!(piece.rotation, Rotation::R0);
}

#[test]
fn test_rotation_cycle() {
    let mut rot = Rotation::R0;
    rot = rot.clockwise();
    assert_eq!(rot, Rotation::R90);
    rot = rot.clockwise();
    assert_eq!(rot, Rotation::R180);
    rot = rot.clockwise();
    assert_eq!(rot, Rotation::R270);
    rot = rot.clockwise();
    assert_eq!(rot, Rotation::R0);
}

#[test]
fn test_t_piece_blocks() {
    let mut piece = Piece::new(PieceType::T);
    piece.x = 5;
    piece.y = 10;

    let blocks = piece.get_blocks();
    assert!(blocks.contains(&(4, 10)));
    assert!(blocks.contains(&(5, 10)));
    assert!(blocks.contains(&(6, 10)));
    assert!(blocks.contains(&(5, 11)));
}

#[test]
fn counter_clockwise_cycle() {
    assert_eq!(Rotation::R0.counter_clockwise(), Rotation::R270);
    assert_eq!(Rotation::R270.counter_clockwise(), Rotation::R180);
    assert_eq!(Rotation::R180.counter_clockwise(), Rotation::R90);
    assert_eq!(Rotation::R90.counter_clockwise(), Rotation::R0);
}

#[test]
fn spawn_position() {
    let piece = Piece::new(PieceType::I);
    assert_eq!((piece.x, piece.y), (4, 20));
    assert_eq!(piece.get_blocks(), [(3, 20), (4, 20), (5, 20), (6, 20)]);
}

#[test]
fn rotation_transforms() {
    let mut piece = Piece::new(PieceType::L);
    piece.x = 5;
    piece.y = 5;
    piece.rotate(true);
    assert_eq!(piece.rotation, Rotation::R90);
    // L base (-1,0),(0,0),(1,0),(1,1) turned to (y,-x).
    assert_eq!(piece.get_blocks(), [(5, 6), (5, 5), (5, 4), (6, 4)]);
    piece.rotate(true);
    assert_eq!(piece.get_blocks(), [(6, 5), (5, 5), (4, 5), (4, 4)]);
    piece.rotate(false);
    piece.rotate(false);
    assert_eq!(piece.rotation, Rotation::R0);
}

#[test]
fn moved_and_turned_blocks() {
    let piece = Piece::new(PieceType::T);
    assert_eq!(piece.get_blocks_after_move(1, -2), [(4, 18), (5, 18), (6, 18), (5, 19)]);
    assert_eq!(
        piece.get_blocks_after_rotation(true, (-1, 0)),
        [(3, 21), (3, 20), (3, 19), (4, 20)]
    );
}

#[test]
fn kick_tables() {
    let t = Piece::new(PieceType::T);
    assert_eq!(t.get_kicks(true), [(0, 0), (-1, 0), (-1, 1), (0, -2), (-1, -2)]);
    assert_eq!(t.get_kicks(false), [(0, 0), (1, 0), (1, 1), (0, -2), (1, -2)]);
    let i = Piece::new(PieceType::I);
    assert_eq!(i.get_kicks(true), [(0, 0), (-2, 0), (1, 0), (-2, -1), (1, 2)]);
    let mut i_r = i;
    i_r.rotation = Rotation::R90;
    assert_eq!(i_r.get_kicks(true), [(0, 0), (-1, 0), (2, 0), (-1, 2), (2, -1)]);
    let o = Piece::new(PieceType::O);
    assert_eq!(o.get_kicks(true), [(0, 0); 5]);
}

#[test]
fn piece_types_and_cells() {
    let all = PieceType::all();
    assert_eq!(all.len(), 7);
    assert_eq!(all[0], PieceType::I);
    assert_eq!(all[6], PieceType::L);
    assert_eq!(PieceType::S.to_cell(), Cell::S);
    assert_eq!(PieceType::J.to_cell(), Cell::J);
    assert_eq!(PieceType::O.preview_blocks(), [(0, 0), (1, 0), (0, 1), (1, 1)]);
}
