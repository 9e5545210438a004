use tetris_core::board::{Board, Cell, BUFFER_HEIGHT, HEIGHT, TOTAL_HEIGHT, WIDTH};

#[test]
fn test_new_board_is_empty() {
    let board = Board::new();
    for y in 0..HEIGHT {
        for x in 0..WIDTH {
            assert!(board.get(x as i32, y as i32).unwrap().is_empty());
        }
    }
}

#[test]
fn test_line_clear() {
    let mut board = Board::new();
    for x in 0..WIDTH {
        board.set(x as i32, 0, Cell::I);
    }
    assert_eq!(board.clear_lines(), 1);
    for x in 0..WIDTH {
        assert!(board.get(x as i32, 0).unwrap().is_empty());
    }
}

#[test]
fn test_collision_detection() {
    let mut board = Board::new();
    board.set(5, 0, Cell::T);

    assert!(board.check_collision(&[(5, 0)]));
    assert!(!board.check_collision(&[(4, 0)]));
    assert!(board.check_collision(&[(-1, 0)]));
    assert!(board.check_collision(&[(0, -1)]));
}

#[test]
fn get_answers_inside_and_nothing_outside() {
    let board = Board::new();
    assert_eq!(TOTAL_HEIGHT, HEIGHT + BUFFER_HEIGHT);
    for y in 0..TOTAL_HEIGHT as i32 {
        for x in 0..WIDTH as i32 {
            assert_eq!(board.get(x, y), Some(Cell::Empty));
        }
    }
    assert_eq!(board.get(-1, 0), None);
    assert_eq!(board.get(10, 0), None);
    assert_eq!(board.get(0, -1), None);
    assert_eq!(board.get(0, 24), None);
}

#[test]
fn set_out_of_bounds_is_ignored() {
    let mut board = Board::new();
    board.set(10, 0, Cell::S);
    board.set(0, 24, Cell::S);
    board.set(-1, 3, Cell::S);
    assert_eq!(board.get_visible_grid(), vec![0u8; 200]);
    assert!(!board.is_topped_out());
}

#[test]
fn valid_position_rules() {
    let mut board = Board::new();
    board.set(2, 23, Cell::Z);
    assert!(!board.is_valid_position(-1, 5));
    assert!(!board.is_valid_position(10, 5));
    assert!(!board.is_valid_position(3, -1));
    assert!(board.is_valid_position(3, 5));
    assert!(!board.is_valid_position(2, 23));
    // Above the stored rows every column inside the walls is free.
    assert!(board.is_valid_position(2, 24));
    assert!(board.is_valid_position(9, 1000));
}

#[test]
fn clear_lines_on_empty_board_changes_nothing() {
    let mut board = Board::new();
    assert_eq!(board.clear_lines(), 0);
    for y in 0..TOTAL_HEIGHT as i32 {
        for x in 0..WIDTH as i32 {
            assert_eq!(board.get(x, y), Some(Cell::Empty));
        }
    }
}

#[test]
fn clear_one_row_shifts_rows_above_down() {
    let mut board = Board::new();
    board.set(3, 0, Cell::J);
    for x in 0..WIDTH as i32 {
        board.set(x, 1, Cell::I);
    }
    board.set(4, 2, Cell::T);
    board.set(7, 23, Cell::O);
    assert_eq!(board.clear_lines(), 1);
    // Row below the cleared one is untouched.
    assert_eq!(board.get(3, 0), Some(Cell::J));
    assert_eq!(board.get(4, 0), Some(Cell::Empty));
    // Rows above moved down by one.
    assert_eq!(board.get(4, 1), Some(Cell::T));
    assert_eq!(board.get(0, 1), Some(Cell::Empty));
    assert_eq!(board.get(7, 22), Some(Cell::O));
    // An empty row entered at the top.
    for x in 0..WIDTH as i32 {
        assert_eq!(board.get(x, 23), Some(Cell::Empty));
    }
}

#[test]
fn clear_lines_keeps_order_of_remaining_rows() {
    let mut board = Board::new();
    for y in [0, 2, 4] {
        for x in 0..WIDTH as i32 {
            board.set(x, y, Cell::L);
        }
    }
    board.set(1, 1, Cell::S);
    board.set(2, 3, Cell::Z);
    board.set(5, 5, Cell::O);
    assert_eq!(board.clear_lines(), 3);
    assert_eq!(board.get(1, 0), Some(Cell::S));
    assert_eq!(board.get(2, 1), Some(Cell::Z));
    assert_eq!(board.get(5, 2), Some(Cell::O));
    for y in 3..TOTAL_HEIGHT as i32 {
        for x in 0..WIDTH as i32 {
            assert_eq!(board.get(x, y), Some(Cell::Empty));
        }
    }
}

#[test]
fn lock_cells_writes_in_bounds_positions() {
    let mut board = Board::new();
    board.lock_cells(&[(0, 0), (9, 23), (10, 0), (0, 30)], Cell::L);
    assert_eq!(board.get(0, 0), Some(Cell::L));
    assert_eq!(board.get(9, 23), Some(Cell::L));
    assert!(board.is_topped_out());
}

#[test]
fn topped_out_only_in_hidden_rows() {
    let mut board = Board::new();
    board.set(0, 19, Cell::T);
    assert!(!board.is_topped_out());
    board.set(0, 20, Cell::T);
    assert!(board.is_topped_out());
}

#[test]
fn visible_grid_is_top_row_first() {
    let mut board = Board::new();
    board.set(0, 19, Cell::I);
    board.set(9, 0, Cell::L);
    board.set(1, 20, Cell::O);
    let grid = board.get_visible_grid();
    assert_eq!(grid.len(), 200);
    assert_eq!(grid[0], 1);
    assert_eq!(grid[199], 7);
    assert_eq!(grid.iter().filter(|&&c| c != 0).count(), 2);
}

#[test]
fn cell_codes() {
    assert_eq!(Cell::Empty.code(), 0);
    assert_eq!(Cell::T.code(), 3);
    assert_eq!(Cell::L.code(), 7);
    assert!(Cell::Empty.is_empty());
    assert!(!Cell::Z.is_empty());
}
