use tetris_core::board::Cell;
use tetris_core::game::Game;
use tetris_core::piece::{Piece, PieceType};
use tetris_core::render::{RenderCell, RenderState};

#[test]
fn frame_of_a_game() {
    let mut game = Game::new();
    game.current_piece = Some(Piece::new(PieceType::T));
    game.next_piece = PieceType::I;
    game.board.set(0, 0, Cell::L);
    game.board.set(9, 19, Cell::S);
    game.board.set(9, 20, Cell::S);
    game.score = 42;
    let r = RenderState::from_game(&game);
    assert_eq!(r.score, 42);
    assert_eq!(r.level, 1);
    assert!(r.hold_available);
    assert_eq!(
        r.board_cells,
        vec![
            RenderCell { x: 0, y: 19, color: 7, opacity: 255 },
            RenderCell { x: 9, y: 0, color: 4, opacity: 255 },
        ]
    );
    // The piece spawns in the hidden rows: nothing of it is visible.
    assert!(r.piece_cells.is_empty());
    // Its ghost rests on the floor, at about 30% opacity.
    assert_eq!(
        r.ghost_cells,
        vec![
            RenderCell { x: 3, y: 19, color: 3, opacity: 77 },
            RenderCell { x: 4, y: 19, color: 3, opacity: 77 },
            RenderCell { x: 5, y: 19, color: 3, opacity: 77 },
            RenderCell { x: 4, y: 18, color: 3, opacity: 77 },
        ]
    );
    assert_eq!(
        r.next_cells,
        vec![
            RenderCell { x: 0, y: 1, color: 1, opacity: 255 },
            RenderCell { x: 1, y: 1, color: 1, opacity: 255 },
            RenderCell { x: 2, y: 1, color: 1, opacity: 255 },
            RenderCell { x: 3, y: 1, color: 1, opacity: 255 },
        ]
    );
    assert!(r.hold_cells.is_empty());
}

#[test]
fn hold_preview_dims_when_unavailable() {
    let mut game = Game::new();
    game.hold_piece = Some(PieceType::O);
    game.can_hold = false;
    let r = RenderState::from_game(&game);
    assert!(!r.hold_available);
    assert_eq!(
        r.hold_cells,
        vec![
            RenderCell { x: 1, y: 1, color: 2, opacity: 102 },
            RenderCell { x: 2, y: 1, color: 2, opacity: 102 },
            RenderCell { x: 1, y: 0, color: 2, opacity: 102 },
            RenderCell { x: 2, y: 0, color: 2, opacity: 102 },
        ]
    );
}

#[test]
fn visible_piece_cells() {
    let mut game = Game::new();
    let mut p = Piece::new(PieceType::T);
    p.y = 5;
    game.current_piece = Some(p);
    let r = RenderState::from_game(&game);
    assert_eq!(
        r.piece_cells,
        vec![
            RenderCell { x: 3, y: 14, color: 3, opacity: 255 },
            RenderCell { x: 4, y: 14, color: 3, opacity: 255 },
            RenderCell { x: 5, y: 14, color: 3, opacity: 255 },
            RenderCell { x: 4, y: 13, color: 3, opacity: 255 },
        ]
    );
}

#[test]
fn flat_arrays_have_four_bytes_per_cell() {
    let mut game = Game::new();
    game.board.set(2, 1, Cell::Z);
    game.next_piece = PieceType::O;
    let arrays = RenderState::from_game(&game).to_flat_arrays();
    assert_eq!(arrays.board, vec![2, 18, 5, 255]);
    assert_eq!(arrays.next, vec![1, 1, 2, 255, 2, 1, 2, 255, 1, 0, 2, 255, 2, 0, 2, 255]);
    assert!(arrays.hold.is_empty());
    assert_eq!(arrays.score, 0);
    assert_eq!(arrays.level, 1);
    assert!(arrays.hold_available);
}
