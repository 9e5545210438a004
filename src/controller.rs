use crate::game::{
    drop_due, drop_frames, hard_drop_rel, hold_rel, is_new_game, move_outcome, rotate_outcome,
    soft_drop_rel, tick_rel, Game, MoveResult,
};
use crate::input::{idle_input, key_down_outcome, key_up_outcome, sat_add, update_outcome, Action, InputState};
use crate::render::{is_empty_render, renders, RenderState};
use vstd::prelude::*;

verus! {

/// Top-level states of a session.
#[derive(Clone, Copy, PartialEq, Eq, Debug, Structural)]
pub enum GameState {
    Idle,
    Playing,
    Paused,
    GameOver,
}

/// Small integer tag of a session state.
pub open spec fn state_code(s: GameState) -> u8 {
    match s {
        GameState::Idle => 0,
        GameState::Playing => 1,
        GameState::Paused => 2,
        GameState::GameOver => 3,
    }
}

/// The integer tag of a session state.
pub fn state_tag(s: GameState) -> (r: u8)
    ensures
        r == state_code(s),
{
    match s {
        GameState::Idle => 0,
        GameState::Playing => 1,
        GameState::Paused => 2,
        GameState::GameOver => 3,
    }
}

/// Owner of a game's lifetime: the session state, the game, key repeat, and
/// the time gathered towards the next gravity step.
#[derive(Clone, Debug)]
pub struct GameController {
    pub state: GameState,
    pub game: Option<Game>,
    pub input: InputState,
    pub drop_accumulator: u64,
}

/// `c` is a session just (re)started: a new game, playing, keys and gravity
/// timer reset.
pub open spec fn started(c: GameController) -> bool {
    &&& c.game matches Some(g) && is_new_game(g)
    &&& c.state == GameState::Playing
    &&& c.input == idle_input()
    &&& c.drop_accumulator == 0
}

/// `g1` follows from `g0` by the game command that `a` stands for; actions
/// that are no game command leave the game as it is.
pub open spec fn game_action_rel(g0: Game, a: Action, g1: Game) -> bool {
    match a {
        Action::MoveLeft => g1 == move_outcome(g0, -1, 0).0,
        Action::MoveRight => g1 == move_outcome(g0, 1, 0).0,
        Action::SoftDrop => exists|r: MoveResult| soft_drop_rel(g0, g1, r),
        Action::HardDrop => exists|r: MoveResult| hard_drop_rel(g0, g1, r),
        Action::RotateCW => g1 == rotate_outcome(g0, true).0,
        Action::RotateCCW => g1 == rotate_outcome(g0, false).0,
        Action::Hold => exists|r: MoveResult| hold_rel(g0, g1, r),
        _ => g1 == g0,
    }
}

/// `c1` follows from `c0` by dispatching action `a`: session transitions
/// first, then, while playing, the game command, entering `GameOver` when the
/// game ended.
pub open spec fn action_rel(c0: GameController, a: Action, c1: GameController) -> bool {
    if c0.state == GameState::Idle && a == Action::Start {
        started(c1)
    } else if c0.state == GameState::Playing && a == Action::Pause {
        c1 == GameController { state: GameState::Paused, input: idle_input(), ..c0 }
    } else if a == Action::Restart && c0.state != GameState::Idle || c0.state == GameState::GameOver
        && a == Action::Start {
        started(c1)
    } else if c0.state == GameState::Paused && a == Action::Pause {
        c1 == GameController { state: GameState::Playing, ..c0 }
    } else if c0.state == GameState::Playing && c0.game.is_some() {
        let g0 = c0.game.unwrap();
        exists|g1: Game|
            game_action_rel(g0, a, g1) && c1 == GameController {
                game: Some(g1),
                state: if g1.game_over {
                    GameState::GameOver
                } else {
                    GameState::Playing
                },
                ..c0
            }
    } else {
        c1 == c0
    }
}

/// `trace` lists the states passed through while dispatching `acts` in order.
pub open spec fn dispatch_trace(acts: Seq<Action>, trace: Seq<GameController>) -> bool {
    &&& trace.len() == acts.len() + 1
    &&& forall|i: int| 0 <= i < acts.len() ==> action_rel(trace[i], acts[i], #[trigger] trace[i + 1])
}

/// `c1` follows from `c0` by dispatching the actions of `acts` in order.
pub open spec fn actions_rel(c0: GameController, acts: Seq<Action>, c1: GameController) -> bool {
    exists|trace: Seq<GameController>|
        #[trigger] dispatch_trace(acts, trace) && trace[0] == c0 && trace.last() == c1
}

/// `c1` follows from `c0` by the gravity part of an update of `delta` ms:
/// the elapsed time grows, and when a step is due it restarts from zero and
/// the game ticks, entering `GameOver` when the tick reports it.
pub open spec fn gravity_rel(c0: GameController, delta: u64, c1: GameController) -> bool {
    let elapsed = sat_add(c0.drop_accumulator, delta);
    match c0.game {
        None => c1 == GameController { drop_accumulator: elapsed, ..c0 },
        Some(g) => if drop_due(elapsed as int, drop_frames(g.level as int) * 1000 / 60, g.current_piece) {
            exists|g1: Game, r: MoveResult|
                tick_rel(g, g1, r) && c1 == GameController {
                    game: Some(g1),
                    drop_accumulator: 0,
                    state: if r == MoveResult::GameOver {
                        GameState::GameOver
                    } else {
                        c0.state
                    },
                    ..c0
                }
        } else {
            c1 == GameController { drop_accumulator: elapsed, ..c0 }
        },
    }
}

/// `c1` and `r` follow from `c0` by `update(delta)`: nothing happens unless a
/// game is being played; else the key-repeat actions are dispatched, then
/// gravity runs.
pub open spec fn update_rel(c0: GameController, delta: u64, c1: GameController, r: bool) -> bool {
    if c0.state != GameState::Playing || c0.game.is_none() {
        !r && c1 == c0
    } else {
        let (input, acts) = update_outcome(c0.input, delta);
        r && exists|mid: GameController|
            actions_rel(GameController { input, ..c0 }, acts, mid) && gravity_rel(mid, delta, c1)
    }
}

/// What the presentation layer has to do after an animation frame.
#[derive(Clone, Copy, PartialEq, Eq, Debug)]
pub struct FrameReport {
    /// The session state changed: the new and the previous state's tags.
    pub state_change: Option<(u8, u8)>,
    /// While playing: score, level and cleared rows to display.
    pub stats: Option<(u32, u32, u32)>,
    /// While playing: the board has to be drawn again.
    pub redraw: bool,
}

/// Score, level and cleared rows of the controller's game, or `(0, 1, 0)`
/// without one.
pub open spec fn stats_of(c: GameController) -> (u32, u32, u32) {
    match c.game {
        Some(g) => (g.score, g.level, g.lines_cleared),
        None => (0, 1, 0),
    }
}

impl Default for GameController {
    fn default() -> (r: GameController)
        ensures
            r.wf(),
            r.state == GameState::Idle,
            r.game.is_none(),
            r.input == idle_input(),
            r.drop_accumulator == 0,
    {
        GameController::new()
    }
}

impl GameController {
    /// The game, if any, is well formed.
    pub open spec fn wf(&self) -> bool {
        self.game matches Some(g) ==> g.wf()
    }

    pub fn new() -> (r: GameController)
        ensures
            r.wf(),
            r.state == GameState::Idle,
            r.game.is_none(),
            r.input == idle_input(),
            r.drop_accumulator == 0,
    {
        GameController {
            state: GameState::Idle,
            game: None,
            input: InputState::new(),
            drop_accumulator: 0,
        }
    }

    /// Starts a new game.
    pub fn start(&mut self)
        ensures
            final(self).wf(),
            started(*final(self)),
    {
        self.game = Some(Game::new());
        self.state = GameState::Playing;
        self.input.reset();
        self.drop_accumulator = 0;
    }

    /// Pauses a game being played, releasing all keys.
    pub fn pause(&mut self)
        requires
            old(self).wf(),
        ensures
            final(self).wf(),
            old(self).state == GameState::Playing ==> *final(self) == (GameController {
                state: GameState::Paused,
                input: idle_input(),
                ..*old(self)
            }),
            old(self).state != GameState::Playing ==> *final(self) == *old(self),
    {
        if self.state == GameState::Playing {
            self.state = GameState::Paused;
            self.input.reset();
        }
    }

    /// Resumes a paused game; held keys stay as they were.
    pub fn resume(&mut self)
        ensures
            old(self).state == GameState::Paused ==> *final(self) == (GameController {
                state: GameState::Playing,
                ..*old(self)
            }),
            old(self).state != GameState::Paused ==> *final(self) == *old(self),
    {
        if self.state == GameState::Paused {
            self.state = GameState::Playing;
        }
    }

    /// Throws the current game away and starts a new one.
    pub fn restart(&mut self)
        ensures
            final(self).wf(),
            started(*final(self)),
    {
        self.start();
    }

    /// Handles a key press: the action it triggers, if any, is dispatched.
    pub fn key_down(&mut self, key: u8)
        requires
            old(self).wf(),
        ensures
            final(self).wf(),
            ({
                let (input, a) = key_down_outcome(old(self).input, key);
                let pressed = GameController { input, ..*old(self) };
                match a {
                    None => *final(self) == pressed,
                    Some(a) => action_rel(pressed, a, *final(self)),
                }
            }),
    {
        if let Some(action) = self.input.key_down(key) {
            self.handle_action(action);
        }
    }

    /// Handles a key release.
    pub fn key_up(&mut self, key: u8)
        ensures
            *final(self) == (GameController {
                input: key_up_outcome(old(self).input, key),
                ..*old(self)
            }),
    {
        self.input.key_up(key);
    }

    /// Dispatches one action.
    fn handle_action(&mut self, action: Action)
        requires
            old(self).wf(),
        ensures
            final(self).wf(),
            action_rel(*old(self), action, *final(self)),
            old(self).game.is_some() ==> final(self).game.is_some(),
    {
        match (self.state, action) {
            (GameState::Idle, Action::Start) => {
                self.start();
                return ;
            },
            (GameState::Playing, Action::Pause) => {
                self.pause();
                return ;
            },
            (GameState::Playing, Action::Restart)
            | (GameState::Paused, Action::Restart)
            | (GameState::GameOver, Action::Restart)
            | (GameState::GameOver, Action::Start) => {
                self.restart();
                return ;
            },
            (GameState::Paused, Action::Pause) => {
                self.resume();
                return ;
            },
            _ => {},
        }
        if self.state == GameState::Playing {
            if let Some(mut game) = self.game.take() {
                let ghost g0 = game;
                match action {
                    Action::MoveLeft => {
                        game.move_piece(-1, 0);
                    },
                    Action::MoveRight => {
                        game.move_piece(1, 0);
                    },
                    Action::SoftDrop => {
                        game.soft_drop();
                    },
                    Action::HardDrop => {
                        game.hard_drop();
                    },
                    Action::RotateCW => {
                        game.rotate(true);
                    },
                    Action::RotateCCW => {
                        game.rotate(false);
                    },
                    Action::Hold => {
                        game.hold();
                    },
                    _ => {},
                }
                assert(game_action_rel(g0, action, game));
                if game.game_over {
                    self.state = GameState::GameOver;
                }
                self.game = Some(game);
            }
        }
    }

    /// Advances the session by `delta_ms` ms: key repeats, then gravity.
    /// Returns whether anything ran (a game is being played).
    pub fn update(&mut self, delta_ms: u64) -> (r: bool)
        requires
            old(self).wf(),
        ensures
            final(self).wf(),
            update_rel(*old(self), delta_ms, *final(self), r),
    {
        if self.state != GameState::Playing {
            return false;
        }
        if self.game.is_none() {
            return false;
        }
        let actions = self.input.update(delta_ms);
        let ghost c_start = *self;
        assert(c_start == GameController { input: update_outcome(old(self).input, delta_ms).0, ..*old(self) });
        let ghost mut trace = seq![*self];
        let mut i: usize = 0;
        while i < actions.len()
            invariant
                self.wf(),
                self.game.is_some(),
                i <= actions@.len(),
                dispatch_trace(actions@.take(i as int), trace),
                trace[0] == c_start,
                trace.last() == *self,
            decreases actions@.len() - i,
        {
            let action = actions[i];
            let ghost prev = *self;
            self.handle_action(action);
            proof {
                let old_trace = trace;
                trace = trace.push(*self);
                assert forall|j: int| 0 <= j < i + 1 implies action_rel(
                    trace[j],
                    actions@.take(i + 1)[j],
                    #[trigger] trace[j + 1],
                ) by {
                    if j < i {
                        assert(action_rel(old_trace[j], actions@.take(i as int)[j], old_trace[j + 1]));
                    }
                }
            }
            i = i + 1;
        }
        assert(actions@.take(actions@.len() as int) =~= actions@);
        assert(actions_rel(c_start, actions@, *self));
        let ghost mid = *self;
        self.drop_accumulator = self.drop_accumulator.saturating_add(delta_ms);
        if let Some(mut game) = self.game.take() {
            let ghost g0 = game;
            if game.gravity_due(self.drop_accumulator) {
                self.drop_accumulator = 0;
                let result = game.tick();
                if result == MoveResult::GameOver {
                    self.state = GameState::GameOver;
                }
                self.game = Some(game);
                assert(tick_rel(g0, game, result) && *self == GameController {
                    game: Some(game),
                    drop_accumulator: 0,
                    state: if result == MoveResult::GameOver {
                        GameState::GameOver
                    } else {
                        mid.state
                    },
                    ..mid
                });
            } else {
                self.game = Some(game);
            }
        }
        assert(gravity_rel(mid, delta_ms, *self));
        true
    }

    /// What the presentation layer draws for the current game.
    pub fn get_render_state(&self) -> (r: RenderState)
        requires
            self.wf(),
        ensures
            match self.game {
                Some(g) => renders(g, r),
                None => is_empty_render(r),
            },
    {
        match &self.game {
            Some(game) => RenderState::from_game(game),
            None => RenderState::empty(),
        }
    }

    /// The session state as its integer tag.
    pub fn get_state(&self) -> (r: u8)
        ensures
            r == state_code(self.state),
    {
        state_tag(self.state)
    }

    /// Score of the current game, 0 without one.
    pub fn get_score(&self) -> (r: u32)
        ensures
            r == match self.game {
                Some(g) => g.score,
                None => 0,
            },
    {
        match &self.game {
            Some(g) => g.score,
            None => 0,
        }
    }

    /// Level of the current game, 1 without one.
    pub fn get_level(&self) -> (r: u32)
        ensures
            r == match self.game {
                Some(g) => g.level,
                None => 1,
            },
    {
        match &self.game {
            Some(g) => g.level,
            None => 1,
        }
    }

    /// Rows cleared in the current game, 0 without one.
    pub fn get_lines(&self) -> (r: u32)
        ensures
            r == match self.game {
                Some(g) => g.lines_cleared,
                None => 0,
            },
    {
        match &self.game {
            Some(g) => g.lines_cleared,
            None => 0,
        }
    }

    /// Score, level and cleared rows of the current game, `(0, 1, 0)` without one.
    pub fn get_stats(&self) -> (r: (u32, u32, u32))
        ensures
            r == stats_of(*self),
    {
        match &self.game {
            Some(g) => (g.score, g.level, g.lines_cleared),
            None => (0, 1, 0),
        }
    }

    /// Whether the player may hold now; true without a game.
    pub fn is_hold_available(&self) -> (r: bool)
        ensures
            r == match self.game {
                Some(g) => g.can_hold,
                None => true,
            },
    {
        match &self.game {
            Some(g) => g.can_hold,
            None => true,
        }
    }

    /// Runs one animation frame of `delta_ms` ms (see `update`) and reports
    /// what the presentation layer has to do, given the session state it
    /// last saw: announce a change of state, and while playing show the
    /// stats and redraw.
    pub fn run_frame(&mut self, delta_ms: u64, last_state: GameState) -> (r: FrameReport)
        requires
            old(self).wf(),
        ensures
            final(self).wf(),
            exists|ran: bool| update_rel(*old(self), delta_ms, *final(self), ran),
            r.state_change == (if final(self).state != last_state {
                Some((state_code(final(self).state), state_code(last_state)))
            } else {
                None
            }),
            r.stats == (if final(self).state == GameState::Playing {
                Some(stats_of(*final(self)))
            } else {
                None
            }),
            r.redraw == (final(self).state == GameState::Playing),
    {
        let ran = self.update(delta_ms);
        let current = self.state;
        let state_change = if current != last_state {
            Some((self.get_state(), state_tag(last_state)))
        } else {
            None
        };
        let playing = current == GameState::Playing;
        let stats = if playing {
            Some(self.get_stats())
        } else {
            None
        };
        FrameReport { state_change, stats, redraw: playing }
    }

    /// Losing focus pauses a game being played.
    pub fn on_blur(&mut self)
        requires
            old(self).wf(),
        ensures
            final(self).wf(),
            old(self).state == GameState::Playing ==> *final(self) == (GameController {
                state: GameState::Paused,
                input: idle_input(),
                ..*old(self)
            }),
            old(self).state != GameState::Playing ==> *final(self) == *old(self),
    {
        if self.state == GameState::Playing {
            self.pause();
        }
    }
}

} // verus!
