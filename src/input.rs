use vstd::arithmetic::div_mod::lemma_fundamental_div_mod_converse;
use vstd::prelude::*;

verus! {

/// Delayed auto-shift: how long a sideways key is held before it repeats, in ms.
pub const DAS_DELAY_MS: u64 = 170;

/// Auto-repeat rate: the period of sideways repeats once they started, in ms.
pub const ARR_RATE_MS: u64 = 50;

/// Delay before soft drop repeats (half the sideways delay), in ms.
pub const SOFT_DROP_DAS_MS: u64 = 85;

/// Period of soft-drop repeats (half the sideways rate), in ms.
pub const SOFT_DROP_ARR_MS: u64 = 25;

pub const KEY_LEFT: u8 = 0;
pub const KEY_RIGHT: u8 = 1;
pub const KEY_DOWN: u8 = 2;
pub const KEY_SPACE: u8 = 3;
pub const KEY_ROTATE_CW: u8 = 4;
pub const KEY_ROTATE_CCW: u8 = 5;
pub const KEY_HOLD: u8 = 6;
pub const KEY_PAUSE: u8 = 7;
pub const KEY_START: u8 = 8;
pub const KEY_RESTART: u8 = 9;

/// The logical commands that input produces.
#[derive(Clone, Copy, PartialEq, Eq, Debug, Structural)]
pub enum Action {
    MoveLeft,
    MoveRight,
    SoftDrop,
    HardDrop,
    RotateCW,
    RotateCCW,
    Hold,
    Pause,
    Start,
    Restart,
}

/// Hold flag and timers of one repeating key: how long it has been held, and
/// the time gathered towards the next repeat once the delay has passed.
#[derive(Clone, Copy, PartialEq, Eq, Debug, Structural)]
pub struct KeyTimer {
    pub held: bool,
    pub held_ms: u64,
    pub repeat_ms: u64,
}

/// `a + b` clamped to the range of `u64`.
pub open spec fn sat_add(a: u64, b: u64) -> u64 {
    if a + b > u64::MAX {
        u64::MAX
    } else {
        (a + b) as u64
    }
}

pub open spec fn released() -> KeyTimer {
    KeyTimer { held: false, held_ms: 0, repeat_ms: 0 }
}

pub open spec fn pressed() -> KeyTimer {
    KeyTimer { held: true, held_ms: 0, repeat_ms: 0 }
}

/// One update of a key's timers by `delta` ms, with repeat delay `das` and
/// period `arr`: the new timers and how many repeats fire. While the key is
/// held its time grows. Once that time has reached the delay, the repeat
/// timer grows by the held time past the delay (on the update that crosses
/// it) or by the whole update (afterwards); each time the repeat timer
/// reaches the period one repeat fires and the period is taken off, keeping
/// the remainder.
pub open spec fn timer_step(t: KeyTimer, delta: u64, das: u64, arr: u64) -> (KeyTimer, nat)
    recommends
        arr > 0,
{
    if !t.held {
        (t, 0)
    } else {
        let held_ms = sat_add(t.held_ms, delta);
        if held_ms >= das {
            let gained: u64 = if t.held_ms >= das {
                delta
            } else {
                (held_ms - das) as u64
            };
            let rep = sat_add(t.repeat_ms, gained);
            (KeyTimer { held: true, held_ms, repeat_ms: (rep % arr) as u64 }, (rep / arr) as nat)
        } else {
            (KeyTimer { held_ms, ..t }, 0)
        }
    }
}

/// Appends `n` copies of `a`.
fn push_repeats(actions: &mut Vec<Action>, n: u64, a: Action)
    ensures
        final(actions)@ == old(actions)@ + fired(n as nat, a),
{
    let mut i: u64 = 0;
    while i < n
        invariant
            i <= n,
            actions@ == old(actions)@ + fired(i as nat, a),
        decreases n - i,
    {
        actions.push(a);
        i = i + 1;
        assert(actions@ =~= old(actions)@ + fired(i as nat, a));
    }
}

impl KeyTimer {
    fn advanced(self, delta: u64, das: u64, arr: u64) -> (r: (KeyTimer, u64))
        requires
            arr > 0,
        ensures
            (r.0, r.1 as nat) == timer_step(self, delta, das, arr),
    {
        if !self.held {
            return (self, 0);
        }
        let held_ms = self.held_ms.saturating_add(delta);
        if held_ms >= das {
            let gained = if self.held_ms >= das {
                delta
            } else {
                held_ms - das
            };
            let rep = self.repeat_ms.saturating_add(gained);
            (KeyTimer { held: true, held_ms, repeat_ms: rep % arr }, rep / arr)
        } else {
            (KeyTimer { held_ms, ..self }, 0)
        }
    }
}

/// Key-hold to repeated-action translator for the left, right and down keys.
#[derive(Clone, Copy, PartialEq, Eq, Debug, Structural)]
pub struct InputState {
    pub left: KeyTimer,
    pub right: KeyTimer,
    pub down: KeyTimer,
}

pub open spec fn idle_input() -> InputState {
    InputState { left: released(), right: released(), down: released() }
}

/// `n` copies of action `a`.
pub open spec fn fired(n: nat, a: Action) -> Seq<Action> {
    Seq::new(n, |i: int| a)
}

/// State and actions after `update(delta)`: left, then right, then down.
pub open spec fn update_outcome(s: InputState, delta: u64) -> (InputState, Seq<Action>) {
    let l = timer_step(s.left, delta, DAS_DELAY_MS, ARR_RATE_MS);
    let r = timer_step(s.right, delta, DAS_DELAY_MS, ARR_RATE_MS);
    let d = timer_step(s.down, delta, SOFT_DROP_DAS_MS, SOFT_DROP_ARR_MS);
    (
        InputState { left: l.0, right: r.0, down: d.0 },
        fired(l.1, Action::MoveLeft) + fired(r.1, Action::MoveRight) + fired(
            d.1,
            Action::SoftDrop,
        ),
    )
}

/// The action of a non-repeating key, if `key` is one.
pub open spec fn command_of(key: u8) -> Option<Action> {
    if key == KEY_SPACE {
        Some(Action::HardDrop)
    } else if key == KEY_ROTATE_CW {
        Some(Action::RotateCW)
    } else if key == KEY_ROTATE_CCW {
        Some(Action::RotateCCW)
    } else if key == KEY_HOLD {
        Some(Action::Hold)
    } else if key == KEY_PAUSE {
        Some(Action::Pause)
    } else if key == KEY_START {
        Some(Action::Start)
    } else if key == KEY_RESTART {
        Some(Action::Restart)
    } else {
        None
    }
}

/// State and action after `key_down(key)`: a repeating key acts only on the
/// press itself and restarts its timers; the other keys act every time.
pub open spec fn key_down_outcome(s: InputState, key: u8) -> (InputState, Option<Action>) {
    if key == KEY_LEFT {
        if s.left.held {
            (s, None)
        } else {
            (InputState { left: pressed(), ..s }, Some(Action::MoveLeft))
        }
    } else if key == KEY_RIGHT {
        if s.right.held {
            (s, None)
        } else {
            (InputState { right: pressed(), ..s }, Some(Action::MoveRight))
        }
    } else if key == KEY_DOWN {
        if s.down.held {
            (s, None)
        } else {
            (InputState { down: pressed(), ..s }, Some(Action::SoftDrop))
        }
    } else {
        (s, command_of(key))
    }
}

/// State after `key_up(key)`: a repeating key is no longer held.
pub open spec fn key_up_outcome(s: InputState, key: u8) -> InputState {
    if key == KEY_LEFT {
        InputState { left: KeyTimer { held: false, ..s.left }, ..s }
    } else if key == KEY_RIGHT {
        InputState { right: KeyTimer { held: false, ..s.right }, ..s }
    } else if key == KEY_DOWN {
        InputState { down: KeyTimer { held: false, ..s.down }, ..s }
    } else {
        s
    }
}

impl InputState {
    pub fn new() -> (r: InputState)
        ensures
            r == idle_input(),
    {
        let t = KeyTimer { held: false, held_ms: 0, repeat_ms: 0 };
        InputState { left: t, right: t, down: t }
    }

    /// Handles a key press; returns the action it triggers, if any.
    pub fn key_down(&mut self, key: u8) -> (r: Option<Action>)
        ensures
            (*final(self), r) == key_down_outcome(*old(self), key),
    {
        let fresh = KeyTimer { held: true, held_ms: 0, repeat_ms: 0 };
        match key {
            0 => {
                if !self.left.held {
                    self.left = fresh;
                    return Some(Action::MoveLeft);
                }
            },
            1 => {
                if !self.right.held {
                    self.right = fresh;
                    return Some(Action::MoveRight);
                }
            },
            2 => {
                if !self.down.held {
                    self.down = fresh;
                    return Some(Action::SoftDrop);
                }
            },
            3 => return Some(Action::HardDrop),
            4 => return Some(Action::RotateCW),
            5 => return Some(Action::RotateCCW),
            6 => return Some(Action::Hold),
            7 => return Some(Action::Pause),
            8 => return Some(Action::Start),
            9 => return Some(Action::Restart),
            _ => {},
        }
        None
    }

    /// Handles a key release.
    pub fn key_up(&mut self, key: u8)
        ensures
            *final(self) == key_up_outcome(*old(self), key),
    {
        match key {
            0 => self.left.held = false,
            1 => self.right.held = false,
            2 => self.down.held = false,
            _ => {},
        }
    }

    /// Advances the timers by `delta_ms` and returns the repeats that fire.
    pub fn update(&mut self, delta_ms: u64) -> (r: Vec<Action>)
        ensures
            (*final(self), r@) == update_outcome(*old(self), delta_ms),
    {
        let mut actions: Vec<Action> = Vec::new();
        let (left, left_repeats) = self.left.advanced(delta_ms, DAS_DELAY_MS, ARR_RATE_MS);
        self.left = left;
        push_repeats(&mut actions, left_repeats, Action::MoveLeft);
        let (right, right_repeats) = self.right.advanced(delta_ms, DAS_DELAY_MS, ARR_RATE_MS);
        self.right = right;
        push_repeats(&mut actions, right_repeats, Action::MoveRight);
        let (down, down_repeats) = self.down.advanced(
            delta_ms,
            SOFT_DROP_DAS_MS,
            SOFT_DROP_ARR_MS,
        );
        self.down = down;
        push_repeats(&mut actions, down_repeats, Action::SoftDrop);
        assert(actions@ =~= update_outcome(*old(self), delta_ms).1);
        actions
    }

    /// Releases every key and clears every timer.
    pub fn reset(&mut self)
        ensures
            *final(self) == idle_input(),
    {
        let t = KeyTimer { held: false, held_ms: 0, repeat_ms: 0 };
        self.left = t;
        self.right = t;
        self.down = t;
    }
}

impl Default for InputState {
    fn default() -> (r: InputState)
        ensures
            r == idle_input(),
    {
        InputState::new()
    }
}

/// Sum of a sequence of update lengths.
pub open spec fn total_ms(ds: Seq<u64>) -> int
    decreases ds.len(),
{
    if ds.len() == 0 {
        0
    } else {
        total_ms(ds.drop_last()) + ds.last()
    }
}

/// State and actions after the updates of `ds`, in order.
pub open spec fn run_updates(s: InputState, ds: Seq<u64>) -> (InputState, Seq<Action>)
    decreases ds.len(),
{
    if ds.len() == 0 {
        (s, Seq::empty())
    } else {
        let before = run_updates(s, ds.drop_last());
        let after = update_outcome(before.0, ds.last());
        (after.0, before.1 + after.1)
    }
}

/// Timers and emitted repeats after updates totalling `t` ms with only the
/// left key held since a fresh press: `(t - DAS) / ARR` repeats once the
/// delay has passed.
proof fn lemma_left_run(ds: Seq<u64>)
    requires
        total_ms(ds) <= u64::MAX,
    ensures
        ({
            let (s, acts) = run_updates(InputState { left: pressed(), ..idle_input() }, ds);
            let t = total_ms(ds);
            &&& s.left.held && s.left.held_ms == t
            &&& s.right == released() && s.down == released()
            &&& forall|i: int| 0 <= i < acts.len() ==> acts[i] == Action::MoveLeft
            &&& t < DAS_DELAY_MS ==> s.left.repeat_ms == 0 && acts.len() == 0
            &&& t >= DAS_DELAY_MS ==> s.left.repeat_ms == (t - DAS_DELAY_MS) % 50 && acts.len() == (
            t - DAS_DELAY_MS) / 50
        }),
    decreases ds.len(),
{
    if ds.len() > 0 {
        let rest = ds.drop_last();
        let d = ds.last();
        lemma_left_run(rest);
        let t = total_ms(rest);
        let (s, acts) = run_updates(InputState { left: pressed(), ..idle_input() }, rest);
        let after = update_outcome(s, d);
        if t + d >= DAS_DELAY_MS {
            if t < DAS_DELAY_MS {
                let g = t + d - 170;
                lemma_fundamental_div_mod_converse(g, 50, g / 50, g % 50);
            } else {
                let a = t - 170;
                let q = a / 50;
                let r = a % 50;
                lemma_fundamental_div_mod_converse(a, 50, q, r);
                let m = r + d;
                let q2 = m / 50;
                let r2 = m % 50;
                lemma_fundamental_div_mod_converse(m, 50, q2, r2);
                lemma_fundamental_div_mod_converse(a + d, 50, q + q2, r2);
            }
        }
        assert(after.1 =~= fired(timer_step(s.left, d, DAS_DELAY_MS, ARR_RATE_MS).1, Action::MoveLeft));
        assert forall|i: int| 0 <= i < (acts + after.1).len() implies (acts + after.1)[i]
            == Action::MoveLeft by {
            if i >= acts.len() {
                assert((acts + after.1)[i] == after.1[i - acts.len()]);
            }
        }
    }
}

/// Holding the left key from a fresh press for exactly `DAS + n * ARR` ms,
/// fed as any sequence of updates, yields exactly `n + 1` MoveLeft actions:
/// the press and `n` repeats.
pub proof fn lemma_left_hold_yields_repeats(n: nat, ds: Seq<u64>)
    requires
        total_ms(ds) == DAS_DELAY_MS + ARR_RATE_MS * n,
        total_ms(ds) <= u64::MAX,
    ensures
        ({
            let (pressed_state, first) = key_down_outcome(idle_input(), KEY_LEFT);
            let (s, repeats) = run_updates(pressed_state, ds);
            &&& first == Some(Action::MoveLeft)
            &&& repeats.len() == n
            &&& forall|i: int| 0 <= i < repeats.len() ==> repeats[i] == Action::MoveLeft
        }),
{
    lemma_left_run(ds);
    lemma_fundamental_div_mod_converse(50 * n as int, 50, n as int, 0);
    assert(key_down_outcome(idle_input(), KEY_LEFT).0 == InputState { left: pressed(), ..idle_input() });
}

} // verus!
