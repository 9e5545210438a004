use tetris_core::controller::{GameController, GameState};
use tetris_core::input::{KEY_LEFT, KEY_PAUSE, KEY_RESTART, KEY_START};
use tetris_core::piece::{Piece, PieceType};

#[test]
fn starts_from_idle() {
    let mut c = GameController::new();
    assert_eq!(c.get_state(), 0);
    assert_eq!(c.get_score(), 0);
    assert_eq!(c.get_level(), 1);
    assert_eq!(c.get_lines(), 0);
    assert!(!c.update(16));
    c.key_down(KEY_START);
    assert_eq!(c.state, GameState::Playing);
    assert_eq!(c.get_state(), 1);
    assert!(c.game.is_some());
}

#[test]
fn pause_and_resume() {
    let mut c = GameController::new();
    c.start();
    c.key_down(KEY_PAUSE);
    assert_eq!(c.state, GameState::Paused);
    assert_eq!(c.get_state(), 2);
    assert!(!c.update(10_000));
    c.key_down(KEY_PAUSE);
    assert_eq!(c.state, GameState::Playing);
    c.on_blur();
    assert_eq!(c.state, GameState::Paused);
    c.resume();
    assert_eq!(c.state, GameState::Playing);
}

#[test]
fn game_actions_reach_the_game() {
    let mut c = GameController::new();
    c.start();
    c.game.as_mut().unwrap().current_piece = Some(Piece::new(PieceType::T));
    c.key_down(KEY_LEFT);
    assert_eq!(c.game.as_ref().unwrap().current_piece.unwrap().x, 3);
    c.key_down(4);
    assert_eq!(
        c.game.as_ref().unwrap().current_piece.unwrap().rotation,
        tetris_core::piece::Rotation::R90
    );
    c.key_down(3);
    assert_eq!(c.get_score(), 38);
}

#[test]
fn gravity_ticks_after_interval() {
    let mut c = GameController::new();
    c.start();
    c.game.as_mut().unwrap().current_piece = Some(Piece::new(PieceType::T));
    // Piece at row 20: 800 ms * 160 / 164 is about 780.5 ms.
    assert!(c.update(780));
    assert_eq!(c.game.as_ref().unwrap().current_piece.unwrap().y, 20);
    assert_eq!(c.drop_accumulator, 780);
    assert!(c.update(1));
    assert_eq!(c.game.as_ref().unwrap().current_piece.unwrap().y, 19);
    assert_eq!(c.drop_accumulator, 0);
}

#[test]
fn restart_replaces_the_game() {
    let mut c = GameController::new();
    c.start();
    c.game.as_mut().unwrap().score = 1234;
    c.key_down(KEY_RESTART);
    assert_eq!(c.state, GameState::Playing);
    assert_eq!(c.get_score(), 0);
}

#[test]
fn game_over_is_reported_and_start_restarts() {
    let mut c = GameController::new();
    c.start();
    {
        let game = c.game.as_mut().unwrap();
        game.current_piece = Some(Piece::new(PieceType::O));
        for y in 0..20 {
            game.board.set(4, y, tetris_core::board::Cell::J);
        }
    }
    c.key_down(3);
    assert_eq!(c.state, GameState::GameOver);
    assert_eq!(c.get_state(), 3);
    assert!(!c.update(1000));
    c.key_down(KEY_START);
    assert_eq!(c.state, GameState::Playing);
    assert!(!c.game.as_ref().unwrap().game_over);
}

#[test]
fn render_state_without_game_is_empty() {
    let c = GameController::new();
    let r = c.get_render_state();
    assert!(r.board_cells.is_empty());
    assert!(r.next_cells.is_empty());
    assert_eq!(r.score, 0);
}

#[test]
fn frame_report_announces_changes_and_stats() {
    let mut c = GameController::new();
    assert_eq!(c.get_stats(), (0, 1, 0));
    assert!(c.is_hold_available());
    let idle = c.run_frame(16, GameState::Idle);
    assert_eq!(idle.state_change, None);
    assert_eq!(idle.stats, None);
    assert!(!idle.redraw);
    c.start();
    let first = c.run_frame(16, GameState::Idle);
    assert_eq!(first.state_change, Some((1, 0)));
    assert_eq!(first.stats, Some((0, 1, 0)));
    assert!(first.redraw);
    c.game.as_mut().unwrap().can_hold = false;
    assert!(!c.is_hold_available());
    c.pause();
    let paused = c.run_frame(16, GameState::Playing);
    assert_eq!(paused.state_change, Some((2, 1)));
    assert_eq!(paused.stats, None);
    assert!(!paused.redraw);
}
