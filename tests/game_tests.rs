use tetris_core::bag::Bag;
use tetris_core::board::{Board, Cell, WIDTH};
use tetris_core::game::{Game, MoveResult};
use tetris_core::piece::{Piece, PieceType, Rotation};

fn game_with(piece: Piece) -> Game {
    let mut game = Game::new();
    game.current_piece = Some(piece);
    game
}

#[test]
fn test_new_game() {
    let game = Game::new();
    assert!(!game.game_over);
    assert!(game.current_piece.is_some());
    assert_eq!(game.score, 0);
    assert_eq!(game.level, 1);
}

#[test]
fn test_move_piece() {
    let mut game = Game::new();
    let initial_x = game.current_piece.as_ref().unwrap().x;

    assert_eq!(game.move_piece(1, 0), MoveResult::Success);
    assert_eq!(game.current_piece.as_ref().unwrap().x, initial_x + 1);

    assert_eq!(game.move_piece(-1, 0), MoveResult::Success);
    assert_eq!(game.current_piece.as_ref().unwrap().x, initial_x);
}

#[test]
fn test_line_clear_scoring() {
    let game = Game::new();
    assert_eq!(game.calculate_line_score(1), 100);
    assert_eq!(game.calculate_line_score(4), 800);
}

#[test]
fn line_score_table() {
    let mut game = Game::new();
    assert_eq!(game.calculate_line_score(0), 0);
    assert_eq!(game.calculate_line_score(2), 300);
    assert_eq!(game.calculate_line_score(3), 500);
    assert_eq!(game.calculate_line_score(5), 0);
    game.level = 3;
    assert_eq!(game.calculate_line_score(1), 300);
    game.level = u32::MAX;
    assert_eq!(game.calculate_line_score(4), u32::MAX);
}

#[test]
fn new_game_state() {
    let game = Game::new();
    assert_eq!(game.lines_cleared, 0);
    assert!(game.hold_piece.is_none());
    assert!(game.can_hold);
    let piece = game.current_piece.unwrap();
    assert_eq!((piece.x, piece.y, piece.rotation), (4, 20, Rotation::R0));
    for y in 0..24 {
        for x in 0..10 {
            assert_eq!(game.board.get(x, y), Some(Cell::Empty));
        }
    }
}

#[test]
fn move_into_wall_fails_and_keeps_state() {
    let mut game = game_with(Piece::new(PieceType::I));
    assert_eq!(game.move_piece(-3, 0), MoveResult::Success);
    assert_eq!(game.move_piece(-1, 0), MoveResult::Failed);
    assert_eq!(game.current_piece.unwrap().x, 1);
}

#[test]
fn move_without_piece_fails_and_game_over_short_circuits() {
    let mut game = Game::new();
    game.current_piece = None;
    assert_eq!(game.move_piece(1, 0), MoveResult::Failed);
    assert_eq!(game.rotate(true), MoveResult::Failed);
    assert_eq!(game.hold(), MoveResult::Failed);
    game.game_over = true;
    assert_eq!(game.move_piece(1, 0), MoveResult::GameOver);
    assert_eq!(game.rotate(true), MoveResult::GameOver);
    assert_eq!(game.tick(), MoveResult::GameOver);
    assert_eq!(game.hard_drop(), MoveResult::GameOver);
    assert_eq!(game.hold(), MoveResult::Failed);
}

#[test]
fn t_piece_turns_in_place_at_spawn() {
    let mut game = game_with(Piece::new(PieceType::T));
    let expected = [Rotation::R90, Rotation::R180, Rotation::R270, Rotation::R0];
    for rot in expected {
        assert_eq!(game.rotate(true), MoveResult::Success);
        let p = game.current_piece.unwrap();
        assert_eq!((p.x, p.y, p.rotation), (4, 20, rot));
    }
    assert_eq!(game.rotate(false), MoveResult::Success);
    assert_eq!(game.current_piece.unwrap().rotation, Rotation::R270);
}

#[test]
fn rotation_uses_first_kick_that_fits() {
    // A T piece against the left wall turned from R90 back to R0 needs a kick.
    let mut piece = Piece::new(PieceType::T);
    piece.x = 0;
    piece.y = 5;
    piece.rotation = Rotation::R90;
    let mut game = game_with(piece);
    assert_eq!(game.rotate(false), MoveResult::Success);
    let p = game.current_piece.unwrap();
    // R90 -> R0 uses (0,0),(1,0),...: (0,0) collides with the wall, (1,0) fits.
    assert_eq!((p.x, p.y, p.rotation), (1, 5, Rotation::R0));
}

#[test]
fn rotation_fails_when_boxed_in() {
    let mut piece = Piece::new(PieceType::I);
    piece.x = 4;
    piece.y = 0;
    let mut game = game_with(piece);
    for y in 0..24 {
        for x in 0..WIDTH as i32 {
            if y != 0 || x < 3 || x > 6 {
                game.board.set(x, y, Cell::Z);
            }
        }
    }
    assert_eq!(game.rotate(true), MoveResult::Failed);
    let p = game.current_piece.unwrap();
    assert_eq!((p.x, p.y, p.rotation), (4, 0, Rotation::R0));
}

#[test]
fn o_piece_rotation_changes_nothing() {
    let mut piece = Piece::new(PieceType::O);
    piece.x = 0;
    piece.y = 0;
    let mut game = game_with(piece);
    game.board.set(2, 0, Cell::T);
    game.board.set(0, 2, Cell::T);
    game.board.set(2, 1, Cell::T);
    let before = game.current_piece.unwrap().get_blocks();
    assert_eq!(game.rotate(true), MoveResult::Success);
    assert_eq!(game.rotate(false), MoveResult::Success);
    assert_eq!(game.current_piece.unwrap().get_blocks(), before);
    assert_eq!(game.current_piece.unwrap().rotation, Rotation::R0);
}

#[test]
fn soft_drop_awards_a_point() {
    let mut game = game_with(Piece::new(PieceType::T));
    assert_eq!(game.soft_drop(), MoveResult::Success);
    assert_eq!(game.score, 1);
    assert_eq!(game.current_piece.unwrap().y, 19);
    let mut low = Piece::new(PieceType::T);
    low.y = 0;
    game.current_piece = Some(low);
    assert_eq!(game.soft_drop(), MoveResult::Failed);
    assert_eq!(game.score, 1);
}

#[test]
fn hard_drop_lands_on_floor() {
    let mut game = game_with(Piece::new(PieceType::T));
    assert_eq!(game.get_ghost_y(), Some(0));
    assert_eq!(game.hard_drop(), MoveResult::Locked);
    assert_eq!(game.score, 40);
    assert_eq!(game.board.get(3, 0), Some(Cell::T));
    assert_eq!(game.board.get(4, 0), Some(Cell::T));
    assert_eq!(game.board.get(5, 0), Some(Cell::T));
    assert_eq!(game.board.get(4, 1), Some(Cell::T));
    assert_eq!(game.board.get(4, 2), Some(Cell::Empty));
    assert!(game.current_piece.is_some());
}

#[test]
fn hard_drop_rests_one_row_above_obstacle() {
    let mut game = game_with(Piece::new(PieceType::T));
    game.board.set(4, 7, Cell::L);
    assert_eq!(game.get_ghost_y(), Some(8));
    assert_eq!(game.hard_drop(), MoveResult::Locked);
    assert_eq!(game.score, 24);
    assert_eq!(game.board.get(4, 8), Some(Cell::T));
    assert_eq!(game.board.get(3, 8), Some(Cell::T));
    assert_eq!(game.board.get(4, 9), Some(Cell::T));
    assert_eq!(game.board.get(4, 7), Some(Cell::L));
}

#[test]
fn ghost_without_piece() {
    let mut game = Game::new();
    game.current_piece = None;
    assert_eq!(game.get_ghost_y(), None);
}

fn fill_row_except(board: &mut Board, y: i32, gap: i32) {
    for x in 0..WIDTH as i32 {
        if x != gap {
            board.set(x, y, Cell::Z);
        }
    }
}

fn vertical_i(x: i32, y: i32) -> Piece {
    Piece { piece_type: PieceType::I, x, y, rotation: Rotation::R90 }
}

#[test]
fn tetris_at_level_one_scores_800() {
    let mut game = game_with(vertical_i(0, 2));
    for y in 0..4 {
        fill_row_except(&mut game.board, y, 0);
    }
    assert_eq!(game.tick(), MoveResult::Locked);
    assert_eq!(game.score, 800);
    assert_eq!(game.lines_cleared, 4);
    assert_eq!(game.level, 1);
    for y in 0..4 {
        for x in 0..WIDTH as i32 {
            assert_eq!(game.board.get(x, y), Some(Cell::Empty));
        }
    }
}

#[test]
fn single_at_level_three_scores_300() {
    let mut game = game_with(vertical_i(0, 2));
    game.level = 3;
    game.lines_cleared = 20;
    fill_row_except(&mut game.board, 0, 0);
    assert_eq!(game.tick(), MoveResult::Locked);
    assert_eq!(game.score, 300);
    assert_eq!(game.lines_cleared, 21);
    assert_eq!(game.level, 3);
    assert_eq!(game.board.get(0, 0), Some(Cell::I));
    assert_eq!(game.board.get(0, 2), Some(Cell::I));
    assert_eq!(game.board.get(0, 3), Some(Cell::Empty));
}

#[test]
fn score_uses_level_before_the_clear() {
    let mut game = game_with(vertical_i(0, 2));
    game.level = 1;
    game.lines_cleared = 8;
    for y in 0..2 {
        fill_row_except(&mut game.board, y, 0);
    }
    assert_eq!(game.tick(), MoveResult::Locked);
    assert_eq!(game.score, 300);
    assert_eq!(game.lines_cleared, 10);
    assert_eq!(game.level, 2);
}

#[test]
fn lock_in_hidden_rows_ends_the_game() {
    let mut game = game_with(Piece::new(PieceType::O));
    for y in 0..20 {
        game.board.set(4, y, Cell::J);
    }
    assert_eq!(game.tick(), MoveResult::GameOver);
    assert!(game.game_over);
    assert!(game.current_piece.is_none());
    assert_eq!(game.tick(), MoveResult::GameOver);
}

#[test]
fn blocked_spawn_ends_the_game() {
    let mut game = Game::new();
    game.current_piece = None;
    for x in 0..WIDTH as i32 {
        game.board.set(x, 20, Cell::J);
    }
    assert_eq!(game.tick(), MoveResult::GameOver);
    assert!(game.game_over);
    assert!(!game.spawn_piece());
}

#[test]
fn tick_spawns_when_no_piece() {
    let mut game = Game::new();
    game.current_piece = None;
    let next = game.next_piece;
    assert_eq!(game.tick(), MoveResult::Success);
    assert_eq!(game.current_piece, Some(Piece::new(next)));
    assert!(game.can_hold);
}

#[test]
fn second_hold_fails_and_changes_nothing() {
    let mut game = Game::new();
    let first = game.current_piece.unwrap().piece_type;
    let next = game.next_piece;
    assert_eq!(game.hold(), MoveResult::Success);
    assert_eq!(game.hold_piece, Some(first));
    assert_eq!(game.current_piece, Some(Piece::new(next)));
    assert!(!game.can_hold);
    let held = game.hold_piece;
    let current = game.current_piece;
    assert_eq!(game.hold(), MoveResult::Failed);
    assert_eq!(game.hold_piece, held);
    assert_eq!(game.current_piece, current);
}

#[test]
fn hold_swaps_with_held_piece_after_lock() {
    let mut game = game_with(Piece::new(PieceType::T));
    assert_eq!(game.hold(), MoveResult::Success);
    assert_eq!(game.hard_drop(), MoveResult::Locked);
    assert!(game.can_hold);
    let current = game.current_piece.unwrap().piece_type;
    assert_eq!(game.hold(), MoveResult::Success);
    assert_eq!(game.hold_piece, Some(current));
    assert_eq!(game.current_piece, Some(Piece::new(PieceType::T)));
}

#[test]
fn ticks_until_lock_on_empty_board() {
    let mut game = Game::new();
    let mut locked = false;
    for _ in 0..100 {
        match game.tick() {
            MoveResult::Locked => {
                locked = true;
                break;
            }
            MoveResult::Success => {}
            other => panic!("unexpected tick result {:?}", other),
        }
    }
    assert!(locked);
    assert_eq!(game.lines_cleared, 0);
    assert_eq!(game.score, 0);
    assert!(game.current_piece.is_some());
    assert!(!game.game_over);
}

#[test]
fn drop_interval_curve() {
    let mut game = Game::new();
    let expected = [
        (1, 800),
        (2, 716),
        (3, 633),
        (9, 133),
        (10, 100),
        (12, 100),
        (13, 83),
        (16, 66),
        (19, 50),
        (28, 50),
        (29, 33),
        (100, 33),
    ];
    for (level, ms) in expected {
        game.level = level;
        assert_eq!(game.get_drop_interval(), ms);
    }
}

#[test]
fn gravity_speeds_up_near_the_floor() {
    let mut game = game_with(Piece::new(PieceType::T));
    let mut p = game.current_piece.unwrap();
    p.y = 24;
    game.current_piece = Some(p);
    assert!(!game.gravity_due(799));
    assert!(game.gravity_due(800));
    p.y = 0;
    game.current_piece = Some(p);
    // 800 ms divided by 1.15 is about 695.65 ms.
    assert!(!game.gravity_due(695));
    assert!(game.gravity_due(696));
    game.current_piece = None;
    assert!(!game.gravity_due(799));
    assert!(game.gravity_due(800));
}

#[test]
fn board_cells_lists_visible_occupied_cells() {
    let mut game = Game::new();
    game.board.set(2, 0, Cell::S);
    game.board.set(1, 5, Cell::I);
    game.board.set(0, 20, Cell::O);
    assert_eq!(game.get_board_cells(), vec![(2, 0, 4), (1, 5, 1)]);
}

#[test]
fn bag_hands_out_each_type_once() {
    let mut bag = Bag::new();
    bag.refill_with(PieceType::all().to_vec());
    assert_eq!(bag.len(), 7);
    let mut drawn = Vec::new();
    for _ in 0..7 {
        drawn.push(bag.draw());
    }
    assert_eq!(
        drawn,
        vec![
            PieceType::L,
            PieceType::J,
            PieceType::Z,
            PieceType::S,
            PieceType::T,
            PieceType::O,
            PieceType::I
        ]
    );
    assert_eq!(bag.len(), 0);
    let mut second = Vec::new();
    for _ in 0..7 {
        second.push(bag.draw());
    }
    for t in PieceType::all() {
        assert_eq!(second.iter().filter(|&&p| p == t).count(), 1);
    }
}

#[test]
fn bag_refill_shuffles() {
    let mut bag = Bag::new();
    let ordered = PieceType::all().to_vec();
    let mut saw_other_order = false;
    for _ in 0..30 {
        bag.refill();
        let mut drawn = Vec::new();
        for _ in 0..7 {
            drawn.push(bag.draw());
        }
        drawn.reverse();
        for t in PieceType::all() {
            assert_eq!(drawn.iter().filter(|&&p| p == t).count(), 1);
        }
        if drawn != ordered {
            saw_other_order = true;
        }
    }
    assert!(saw_other_order);
}

#[test]
fn new_game_draws_from_one_fresh_bag() {
    for _ in 0..20 {
        let mut game = Game::new();
        assert_eq!(game.bag.len(), 5);
        let mut seen = vec![game.current_piece.unwrap().piece_type, game.next_piece];
        for _ in 0..5 {
            seen.push(game.bag.draw());
        }
        for t in PieceType::all() {
            assert_eq!(seen.iter().filter(|&&p| p == t).count(), 1);
        }
    }
}
