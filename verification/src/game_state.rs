//! The state of the game between frames.

use vstd::prelude::*;

verus! {

/// Which screen the game shows.
#[derive(Clone, Copy, Debug, PartialEq, Eq, Structural)]
pub enum GameState {
    Menu,
    Playing,
    Victory,
}

/// What the player asked for during a frame, and what happened in it.
#[derive(Clone, Copy, Debug, PartialEq, Eq, Structural)]
pub struct Frame {
    /// The key that starts or restarts a level was pressed.
    pub start: bool,
    /// The key that leaves the victory screen for the menu was pressed.
    pub leave: bool,
    /// The player stands on the goal.
    pub reached_goal: bool,
    /// The time the frame took, as a fixed-point number of seconds.
    pub elapsed: i64,
}

/// The state of the game and the time spent in the current level, as a
/// fixed-point number of seconds.
#[derive(Clone, Copy, Debug, PartialEq, Eq, Structural)]
pub struct GameManager {
    pub state: GameState,
    pub level_time: i64,
}

/// The sum of two times, held at the ends of `i64` where it would not fit.
pub open spec fn time_sum(a: int, b: int) -> int {
    if a + b > i64::MAX {
        i64::MAX as int
    } else if a + b < i64::MIN {
        i64::MIN as int
    } else {
        a + b
    }
}

impl GameManager {
    pub open spec fn spec_new() -> GameManager {
        GameManager { state: GameState::Menu, level_time: 0 }
    }

    /// A game that shows the menu.
    #[verifier::when_used_as_spec(spec_new)]
    pub fn new() -> (manager: GameManager)
        ensures
            manager == GameManager::spec_new(),
    {
        GameManager { state: GameState::Menu, level_time: 0 }
    }

    /// Starts a level: the game is being played and its clock is at zero.
    pub fn reset(&mut self)
        ensures
            *final(self) == (GameManager { state: GameState::Playing, level_time: 0 }),
    {
        self.state = GameState::Playing;
        self.level_time = 0;
    }

    /// The game after a frame.
    ///
    /// From the menu the start key begins a level. While a level is played
    /// its clock runs, and reaching the goal ends it in victory. From the
    /// victory screen the start key begins the level again, and otherwise
    /// the leave key returns to the menu.
    pub open spec fn after(self, frame: Frame) -> GameManager {
        match self.state {
            GameState::Menu => if frame.start {
                GameManager { state: GameState::Playing, level_time: 0 }
            } else {
                self
            },
            GameState::Playing => GameManager {
                state: if frame.reached_goal {
                    GameState::Victory
                } else {
                    GameState::Playing
                },
                level_time: time_sum(self.level_time as int, frame.elapsed as int) as i64,
            },
            GameState::Victory => if frame.start {
                GameManager { state: GameState::Playing, level_time: 0 }
            } else if frame.leave {
                GameManager { state: GameState::Menu, level_time: self.level_time }
            } else {
                self
            },
        }
    }

    /// Whether the frame puts the player back at the start of the level:
    /// it does when a level begins, and when the victory screen is left.
    pub open spec fn restarts(self, frame: Frame) -> bool {
        match self.state {
            GameState::Menu => frame.start,
            GameState::Playing => false,
            GameState::Victory => frame.start || frame.leave,
        }
    }

    /// Advances the game by one frame, and says whether the player is to
    /// be put back at the start of the level.
    pub fn update(&mut self, frame: &Frame) -> (restart: bool)
        ensures
            *final(self) == old(self).after(*frame),
            restart == old(self).restarts(*frame),
    {
        match self.state {
            GameState::Menu => {
                if frame.start {
                    self.reset();
                    return true;
                }
                false
            },
            GameState::Playing => {
                if frame.reached_goal {
                    self.state = GameState::Victory;
                }
                let total: i128 = self.level_time as i128 + frame.elapsed as i128;
                self.level_time = if total > i64::MAX as i128 {
                    i64::MAX
                } else if total < i64::MIN as i128 {
                    i64::MIN
                } else {
                    total as i64
                };
                false
            },
            GameState::Victory => {
                if frame.start {
                    self.reset();
                    true
                } else if frame.leave {
                    self.state = GameState::Menu;
                    true
                } else {
                    false
                }
            },
        }
    }
}

} // verus!
