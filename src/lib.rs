//! Rules engine of a falling-block puzzle game: board, pieces and their
//! rotation system, the seven-piece randomizer, the game state machine,
//! key-repeat timing, the top-level session controller and the render
//! snapshot handed to a presentation layer.
pub mod bag;
pub mod board;
pub mod controller;
pub mod game;
pub mod input;
pub mod piece;
pub mod render;
pub mod scores;

pub use bag::Bag;
pub use board::{Board, Cell, BUFFER_HEIGHT, HEIGHT, TOTAL_HEIGHT, WIDTH};
pub use controller::{GameController, GameState};
pub use game::{Game, MoveResult};
pub use input::{Action, InputState, KeyTimer};
pub use piece::{Piece, PieceType, Rotation};
pub use render::{RenderArrays, RenderCell, RenderState};
