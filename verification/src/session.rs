//! The session as the host drives it: a simulation clock gating a game
//! state. Once per rendered frame the host hands in the elapsed time and
//! the directional intent; a simulation tick runs only when the clock
//! fires, and the host is told when the session has reached its end.
use vstd::prelude::*;

use crate::clock::{DEFAULT_PERIOD_MS, SimClock};
use crate::game::{GameState, GameView, Outcome, spec_tick};
use crate::grid::Direction;

verus! {

/// A clock and a game; `frame` is the only writer of both.
pub struct Session {
    pub clock: SimClock,
    pub game: GameState,
}

/// The game state after the frame's directional intent is applied: an
/// intent replaces the heading, no intent leaves it.
pub open spec fn spec_turned(g: GameView, intent: Option<Direction>) -> GameView {
    match intent {
        Some(d) => GameView { heading: d, ..g },
        None => g,
    }
}

impl Session {
    pub open spec fn inv(self) -> bool {
        self.clock.wf() && self.game.inv()
    }

    /// A fresh session on an `n` x `n` board with the default tick period.
    pub fn new(n: i32) -> (s: Session)
        requires
            1 <= n <= 4096,
        ensures
            s.inv(),
            s.clock.period_ms == DEFAULT_PERIOD_MS,
            s.clock.elapsed_ms == 0,
            s.game@.n == n as int,
            s.game@.body == seq![GameState::spec_center(n as int)],
            s.game@.heading == Direction::Down,
            s.game@.growth == 0,
            s.game@.fruit is None,
            s.game@.outcome == if n == 1 {
                Outcome::Won
            } else {
                Outcome::Playing
            },
    {
        Session { clock: SimClock::new(), game: GameState::new(n) }
    }

    /// One host frame, in the order of the per-tick control flow: the
    /// intent is applied to the heading, the clock is polled with the
    /// elapsed milliseconds, and exactly one tick is simulated when it
    /// fires. Returns true when the outcome is terminal, the host's signal
    /// to stop. A frame with zero elapsed time never fires a tick.
    pub fn frame(&mut self, delta_ms: u64, intent: Option<Direction>) -> (over: bool)
        requires
            old(self).inv(),
        ensures
            final(self).inv(),
            over == final(self).game@.outcome.is_terminal_spec(),
            final(self).clock.period_ms == old(self).clock.period_ms,
            ({
                let turned = spec_turned(old(self).game@, intent);
                let fired = old(self).clock.elapsed_ms + delta_ms >= old(self).clock.period_ms;
                &&& (fired ==> final(self).clock.elapsed_ms == 0 && (exists|idx: nat|
                    final(self).game@ == spec_tick(turned, idx)))
                &&& (!fired ==> final(self).clock.elapsed_ms == old(self).clock.elapsed_ms
                    + delta_ms && final(self).game@ == turned)
            }),
            delta_ms == 0 ==> final(self).game@.body == old(self).game@.body
                && final(self).game@.outcome == old(self).game@.outcome,
    {
        let ghost turned = spec_turned(old(self).game@, intent);
        match intent {
            Some(d) => self.game.set_heading(d),
            None => (),
        }
        proof {
            assert(self.game@ =~= turned);
        }
        let fired = self.clock.tick(delta_ms);
        if fired {
            self.game.tick();
        }
        self.game.outcome.is_terminal()
    }
}

} // verus!
