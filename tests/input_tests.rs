use tetris_core::input::{Action, InputState, KEY_DOWN, KEY_LEFT, KEY_RIGHT};

fn count(actions: &[Action], which: Action) -> usize {
    actions.iter().filter(|&&a| a == which).count()
}

#[test]
fn press_is_edge_triggered() {
    let mut input = InputState::new();
    assert_eq!(input.key_down(KEY_LEFT), Some(Action::MoveLeft));
    assert_eq!(input.key_down(KEY_LEFT), None);
    input.key_up(KEY_LEFT);
    assert_eq!(input.key_down(KEY_LEFT), Some(Action::MoveLeft));
    assert_eq!(input.key_down(KEY_RIGHT), Some(Action::MoveRight));
    assert_eq!(input.key_down(KEY_DOWN), Some(Action::SoftDrop));
}

#[test]
fn command_keys_always_act() {
    let mut input = InputState::new();
    let expected = [
        (3, Action::HardDrop),
        (4, Action::RotateCW),
        (5, Action::RotateCCW),
        (6, Action::Hold),
        (7, Action::Pause),
        (8, Action::Start),
        (9, Action::Restart),
    ];
    for (key, action) in expected {
        assert_eq!(input.key_down(key), Some(action));
        assert_eq!(input.key_down(key), Some(action));
    }
    assert_eq!(input.key_down(10), None);
    assert_eq!(input.key_down(255), None);
}

#[test]
fn holding_left_repeats_after_delay() {
    for n in 0..6u64 {
        let mut input = InputState::new();
        let mut actions = vec![input.key_down(KEY_LEFT).unwrap()];
        let total = 170 + 50 * n;
        let mut elapsed = 0;
        while elapsed < total {
            actions.extend(input.update(10));
            elapsed += 10;
        }
        assert_eq!(count(&actions, Action::MoveLeft), n as usize + 1);
        assert_eq!(actions.len(), n as usize + 1);
    }
}

#[test]
fn repeat_timer_keeps_remainder() {
    let mut input = InputState::new();
    input.key_down(KEY_RIGHT);
    assert!(input.update(169).is_empty());
    // Only the time past the delay feeds the repeat timer.
    assert!(input.update(1).is_empty());
    assert_eq!(input.right.repeat_ms, 0);
    assert!(input.update(49).is_empty());
    assert_eq!(input.update(1), vec![Action::MoveRight]);
    assert_eq!(input.right.repeat_ms, 0);
    assert_eq!(input.update(70), vec![Action::MoveRight]);
    assert_eq!(input.right.repeat_ms, 20);
}

#[test]
fn crossing_update_counts_only_time_past_delay() {
    let mut input = InputState::new();
    assert_eq!(input.key_down(KEY_LEFT), Some(Action::MoveLeft));
    assert!(input.update(170).is_empty());
    assert_eq!(input.update(50), vec![Action::MoveLeft]);
    let mut late = InputState::new();
    late.key_down(KEY_LEFT);
    assert_eq!(late.update(240), vec![Action::MoveLeft]);
    assert_eq!(late.left.repeat_ms, 20);
}

#[test]
fn long_update_fires_every_period() {
    let mut input = InputState::new();
    input.key_down(KEY_LEFT);
    input.update(170);
    assert_eq!(input.update(160), vec![Action::MoveLeft; 3]);
    assert_eq!(input.left.repeat_ms, 10);
}

#[test]
fn holding_left_with_uneven_updates() {
    for n in 0..5u64 {
        let mut input = InputState::new();
        let mut actions = vec![input.key_down(KEY_LEFT).unwrap()];
        actions.extend(input.update(100));
        actions.extend(input.update(70));
        for _ in 0..n {
            actions.extend(input.update(30));
            actions.extend(input.update(20));
        }
        assert_eq!(count(&actions, Action::MoveLeft), n as usize + 1);
        assert_eq!(actions.len(), n as usize + 1);
    }
}

#[test]
fn soft_drop_repeats_twice_as_fast() {
    let mut input = InputState::new();
    input.key_down(KEY_DOWN);
    assert!(input.update(84).is_empty());
    assert!(input.update(1).is_empty());
    assert!(input.update(24).is_empty());
    assert_eq!(input.update(1), vec![Action::SoftDrop]);
}

#[test]
fn released_keys_do_not_repeat() {
    let mut input = InputState::new();
    input.key_down(KEY_LEFT);
    input.key_up(KEY_LEFT);
    assert!(input.update(1000).is_empty());
}

#[test]
fn reset_releases_everything() {
    let mut input = InputState::new();
    input.key_down(KEY_LEFT);
    input.key_down(KEY_DOWN);
    input.update(500);
    input.reset();
    assert_eq!(input, InputState::new());
    assert!(input.update(1000).is_empty());
}

#[test]
fn several_keys_fire_in_order() {
    let mut input = InputState::new();
    input.key_down(KEY_DOWN);
    input.key_down(KEY_RIGHT);
    input.key_down(KEY_LEFT);
    assert_eq!(
        input.update(220),
        vec![
            Action::MoveLeft,
            Action::MoveRight,
            Action::SoftDrop,
            Action::SoftDrop,
            Action::SoftDrop,
            Action::SoftDrop,
            Action::SoftDrop
        ]
    );
}
