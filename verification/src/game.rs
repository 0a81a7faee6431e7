//! The movement and collision engine and the session state machine: one
//! simulation tick advances the snake, checks walls, self-collision, fruit
//! and the full board, and drives the outcome from Playing into exactly one
//! absorbing terminal state.
use vstd::prelude::*;

use crate::fruit::{
    free_cells, lemma_free_cells_membership, place_at, random_below, spec_free_cells, spec_place,
};
use crate::grid::{Direction, Position, contains_pos_from, in_bounds, spec_in_bounds, spec_step};
use crate::snake::Snake;

verus! {

/// The session outcome. `Playing` is the only state in which ticks
/// simulate; the three others are terminal and absorbing.
#[derive(Copy, Clone, PartialEq, Eq, Structural, Debug)]
pub enum Outcome {
    Playing,
    Won,
    LostWalledOut,
    LostSelfCollision,
}

impl Outcome {
    pub open spec fn is_terminal_spec(self) -> bool {
        self != Outcome::Playing
    }

    pub fn is_terminal(&self) -> (r: bool)
        ensures
            r == self.is_terminal_spec(),
    {
        match *self {
            Outcome::Playing => false,
            _ => true,
        }
    }

    /// The human-readable reason shown for a terminal outcome; empty while
    /// play goes on.
    pub fn message(&self) -> (r: &'static str)
        ensures
            *self == Outcome::Playing ==> r@ == ""@,
            *self == Outcome::Won ==> r@ == "You won!"@,
            *self == Outcome::LostWalledOut ==> r@ == "Snake is crawled away!"@,
            *self == Outcome::LostSelfCollision ==> r@ == "Snake ate itself!"@,
    {
        match *self {
            Outcome::Playing => "",
            Outcome::Won => "You won!",
            Outcome::LostWalledOut => "Snake is crawled away!",
            Outcome::LostSelfCollision => "Snake ate itself!",
        }
    }
}

/// No two elements of `s` are equal.
pub open spec fn pairwise_distinct(s: Seq<Position>) -> bool {
    forall|i: int, j: int| 0 <= i < j < s.len() ==> s[i] != s[j]
}

/// The mathematical state of a session: board size, body cells head first,
/// heading, pending growth, the fruit cell if one is present, and the
/// outcome.
#[verifier::ext_equal]
pub ghost struct GameView {
    pub n: int,
    pub body: Seq<Position>,
    pub heading: Direction,
    pub growth: nat,
    pub fruit: Option<Position>,
    pub outcome: Outcome,
}

/// What holds of a session that is still in play: every body cell on the
/// board, no two body cells equal, room left on the board, and any fruit
/// on the board but off the body.
pub open spec fn play_inv(g: GameView) -> bool {
    &&& forall|i: int| 0 <= i < g.body.len() ==> spec_in_bounds(g.n, #[trigger] g.body[i])
    &&& pairwise_distinct(g.body)
    &&& g.body.len() < g.n * g.n
    &&& (g.fruit matches Some(f) ==> spec_in_bounds(g.n, f) && !g.body.contains(f))
}

/// One game session: an `n` x `n` board, the snake, at most one fruit, and
/// the outcome. The engine below is its single writer.
pub struct GameState {
    pub n: i32,
    pub snake: Snake,
    pub fruit: Option<Position>,
    pub outcome: Outcome,
}

impl View for GameState {
    type V = GameView;

    open spec fn view(&self) -> GameView {
        GameView {
            n: self.n as int,
            body: self.snake.body@,
            heading: self.snake.heading,
            growth: self.snake.growth as nat,
            fruit: self.fruit,
            outcome: self.outcome,
        }
    }
}

/// The start-of-tick fruit phase: when no fruit is present, one is placed
/// on the free cell chosen by `idx`; a full board leaves it absent.
pub open spec fn spec_spawn_phase(g: GameView, idx: nat) -> GameView {
    if g.fruit is None {
        GameView { fruit: spec_place(g.n, g.body, idx), ..g }
    } else {
        g
    }
}

/// One simulation tick as a mathematical function of the state and the
/// fruit choice. A terminal state is returned unchanged. Otherwise, in
/// order: a missing fruit is replaced; the snake advances one cell along
/// its heading (a pending growth unit is consumed and keeps the tail);
/// leaving the board or meeting another body cell is terminal; landing on
/// the fruit removes it and enqueues growth; a body that covers the whole
/// board wins.
pub open spec fn spec_tick(g: GameView, idx: nat) -> GameView {
    if g.outcome != Outcome::Playing {
        g
    } else {
        let g1 = spec_spawn_phase(g, idx);
        let new_head = spec_step(g1.body[0], g1.heading);
        let grow = g1.growth > 0;
        let body2 = Snake::spec_advanced_body(g1.body, new_head, grow);
        let growth2: nat = if grow {
            (g1.growth - 1) as nat
        } else {
            g1.growth
        };
        if !spec_in_bounds(g1.n, new_head) {
            GameView { body: body2, growth: growth2, outcome: Outcome::LostWalledOut, ..g1 }
        } else if body2.skip(1).contains(new_head) {
            GameView { body: body2, growth: growth2, outcome: Outcome::LostSelfCollision, ..g1 }
        } else {
            let ate = g1.fruit == Some(new_head);
            let fruit3 = if ate {
                None
            } else {
                g1.fruit
            };
            let growth3: nat = if ate {
                growth2 + 1
            } else {
                growth2
            };
            let outcome3 = if body2.len() == g1.n * g1.n {
                Outcome::Won
            } else {
                Outcome::Playing
            };
            GameView { body: body2, growth: growth3, fruit: fruit3, outcome: outcome3, ..g1 }
        }
    }
}

/// A tick that completes with the session still in play keeps the play
/// invariant: in particular, the body cells are pairwise distinct again
/// immediately after the tick.
pub proof fn lemma_tick_preserves_play_inv(g0: GameView, idx: nat)
    requires
        1 <= g0.n <= 4096,
        g0.body.len() >= 1,
        g0.outcome == Outcome::Playing,
        play_inv(g0),
        spec_tick(g0, idx).outcome == Outcome::Playing,
    ensures
        play_inv(spec_tick(g0, idx)),
{
    let g1 = spec_spawn_phase(g0, idx);
    let new_head = spec_step(g1.body[0], g1.heading);
    let grow = g1.growth > 0;
    let body2 = Snake::spec_advanced_body(g1.body, new_head, grow);
    let g2 = spec_tick(g0, idx);
    assert(spec_in_bounds(g0.n, new_head));
    assert(!body2.skip(1).contains(new_head));
    assert(g2.body == body2);
    assert forall|i: int| 1 <= i < body2.len() implies body2[i] == g0.body[i - 1] by {
        if grow {
            assert(body2 == seq![new_head] + g0.body);
        } else {
            assert(body2 == seq![new_head] + g0.body.drop_last());
        }
    }
    // Every cell of the advanced body is on the board.
    assert forall|i: int| 0 <= i < body2.len() implies spec_in_bounds(
        g0.n,
        #[trigger] body2[i],
    ) by {
        if i >= 1 {
            assert(body2[i] == g0.body[i - 1]);
        }
    }
    // The advanced body is pairwise distinct: the other segments sit where
    // the old body sat, and the new head meets none of them.
    assert forall|i: int, j: int| 0 <= i < j < body2.len() implies body2[i] != body2[j] by {
        if i == 0 {
            assert(body2.skip(1)[j - 1] == body2[j]);
        } else {
            assert(body2[i] == g0.body[i - 1]);
            assert(body2[j] == g0.body[j - 1]);
        }
    }
    // Any fruit still present is on the board and off the advanced body.
    if let Some(f) = g2.fruit {
        assert(g1.fruit == Some(f));
        assert(f != new_head);
        if g0.fruit is None {
            lemma_free_cells_membership(g0.n, g0.body);
            vstd::arithmetic::div_mod::lemma_mod_bound(
                idx as int,
                spec_free_cells(g0.n, g0.body).len() as int,
            );
            assert(spec_in_bounds(g0.n, f) && !g0.body.contains(f));
        }
        assert forall|k: int| 0 <= k < body2.len() implies body2[k] != f by {
            if k >= 1 {
                assert(body2[k] == g0.body[k - 1]);
                assert(g0.body.contains(g0.body[k - 1]));
            }
        }
        assert(!body2.contains(f));
    }
}

impl GameState {
    /// The session invariant, established by `new` and preserved by every
    /// operation.
    pub open spec fn inv(self) -> bool {
        &&& 1 <= self@.n <= 4096
        &&& self.snake.wf()
        &&& self@.growth <= 1
        &&& (self@.outcome == Outcome::Playing ==> play_inv(self@))
    }

    /// The centre cell of the `n` x `n` board.
    pub open spec fn spec_center(n: int) -> Position {
        Position { x: (n / 2) as i32, y: (n / 2) as i32 }
    }

    /// A fresh session: a length-1 snake at the board centre heading Down,
    /// no fruit yet, and Playing — except on a one-cell board, which the
    /// snake already fills, so the session starts Won.
    pub fn new(n: i32) -> (g: GameState)
        requires
            1 <= n <= 4096,
        ensures
            g.inv(),
            g@.n == n as int,
            g@.body == seq![Self::spec_center(n as int)],
            g@.heading == Direction::Down,
            g@.growth == 0,
            g@.fruit is None,
            g@.outcome == if n == 1 {
                Outcome::Won
            } else {
                Outcome::Playing
            },
    {
        let center = Position::new(n / 2, n / 2);
        let snake = Snake::new(center, Direction::Down);
        let outcome = if n == 1 {
            Outcome::Won
        } else {
            Outcome::Playing
        };
        let g = GameState { n, snake, fruit: None, outcome };
        proof {
            if n != 1 {
                assert(1 < (n as int) * (n as int)) by (nonlinear_arith)
                    requires
                        2 <= n as int,
                ;
            }
        }
        g
    }

    /// Requests a turn: the heading used from the next tick on. Several
    /// requests between two ticks leave only the last one.
    pub fn set_heading(&mut self, d: Direction)
        requires
            old(self).inv(),
        ensures
            final(self).inv(),
            final(self)@ == (GameView { heading: d, ..old(self)@ }),
    {
        self.snake.set_heading(d);
        proof {
            assert(self@ =~= (GameView { heading: d, ..old(self)@ }));
        }
    }

    /// One simulation tick with the fruit choice made explicit: the new
    /// state is exactly `spec_tick` of the old state and `idx`, so a fixed
    /// sequence of choices and headings reproduces a full trace. While the
    /// session was in play, the body length stays or grows by exactly one,
    /// and the head leaving the board is terminal on exactly that tick.
    pub fn tick_at(&mut self, idx: usize)
        requires
            old(self).inv(),
        ensures
            final(self).inv(),
            final(self)@ == spec_tick(old(self)@, idx as nat),
            old(self)@.outcome != Outcome::Playing ==> final(self)@ == old(self)@,
            old(self)@.outcome == Outcome::Playing ==> final(self)@.body.len()
                == old(self)@.body.len() || final(self)@.body.len() == old(self)@.body.len() + 1,
            old(self)@.outcome == Outcome::Playing ==> (final(self)@.outcome
                == Outcome::LostWalledOut <==> !spec_in_bounds(
                old(self)@.n,
                spec_step(old(self)@.body[0], old(self)@.heading),
            )),
            final(self)@.outcome == Outcome::Playing ==> pairwise_distinct(final(self)@.body),
    {
        if self.outcome != Outcome::Playing {
            proof {
                assert(self@ =~= spec_tick(old(self)@, idx as nat));
            }
            return;
        }
        // Fruit phase: replace a missing fruit.
        if self.fruit.is_none() {
            self.fruit = place_at(self.n, &self.snake.body, idx);
        }
        let ghost g1 = spec_spawn_phase(old(self)@, idx as nat);
        proof {
            assert(self@ =~= g1);
            assert(spec_in_bounds(g1.n, g1.body[0]));
        }
        // Advance one cell along the heading.
        let ghost grow = self.snake.growth > 0;
        let _vacated = self.snake.advance();
        let new_head = self.snake.head();
        let ghost body2 = self.snake.body@;
        proof {
            let nh = spec_step(g1.body[0], g1.heading);
            if grow {
                assert(body2 == seq![nh] + g1.body);
                assert(body2[0] == nh);
            } else {
                assert(body2 == seq![nh] + g1.body.drop_last());
                assert(body2[0] == nh);
            }
            assert(new_head == nh);
            assert(self.snake.growth == 0);
        }
        // Wall check.
        if !in_bounds(self.n, new_head) {
            self.outcome = Outcome::LostWalledOut;
            proof {
                assert(self@ =~= spec_tick(old(self)@, idx as nat));
            }
            return;
        }
        // Self-collision check: the new head against the other segments.
        if contains_pos_from(&self.snake.body, 1, new_head) {
            self.outcome = Outcome::LostSelfCollision;
            proof {
                assert(self@ =~= spec_tick(old(self)@, idx as nat));
            }
            return;
        }
        // Fruit check: eating removes the fruit and enqueues growth.
        let ate = match self.fruit {
            Some(f) => f == new_head,
            None => false,
        };
        if ate {
            self.fruit = None;
            self.snake.enqueue_growth();
        }
        // Win check: the body covers the whole board.
        let nu = self.n as usize;
        proof {
            assert(nu * nu <= 4096 * 4096) by (nonlinear_arith)
                requires
                    0 <= nu <= 4096,
            ;
        }
        let total: usize = nu * nu;
        if self.snake.body.len() == total {
            self.outcome = Outcome::Won;
        }
        proof {
            assert(self@ =~= spec_tick(old(self)@, idx as nat));
            if self@.outcome == Outcome::Playing {
                lemma_tick_preserves_play_inv(old(self)@, idx as nat);
            }
        }
    }

    /// One simulation tick; when a fruit must be placed its cell is drawn
    /// uniformly at random among the free cells, so the new state is
    /// `spec_tick` of the old state at some choice. Everything besides
    /// that choice is as `tick_at` states.
    pub fn tick(&mut self)
        requires
            old(self).inv(),
        ensures
            final(self).inv(),
            exists|idx: nat| final(self)@ == spec_tick(old(self)@, idx),
            old(self)@.outcome != Outcome::Playing ==> final(self)@ == old(self)@,
            old(self)@.outcome == Outcome::Playing ==> final(self)@.body.len()
                == old(self)@.body.len() || final(self)@.body.len() == old(self)@.body.len() + 1,
            old(self)@.outcome == Outcome::Playing ==> (final(self)@.outcome
                == Outcome::LostWalledOut <==> !spec_in_bounds(
                old(self)@.n,
                spec_step(old(self)@.body[0], old(self)@.heading),
            )),
            final(self)@.outcome == Outcome::Playing ==> pairwise_distinct(final(self)@.body),
    {
        let mut idx: usize = 0;
        let playing = !self.outcome.is_terminal();
        if playing && self.fruit.is_none() {
            let free = free_cells(self.n, &self.snake.body);
            if free.len() > 0 {
                idx = random_below(free.len());
            }
        }
        self.tick_at(idx);
        proof {
            assert(self@ == spec_tick(old(self)@, idx as nat));
        }
    }
}

/// While the session is in play the snake never covers the whole board,
/// so the spawn phase of a tick always leaves a fruit present: a missing
/// fruit is owed its replacement on the very next tick.
pub proof fn lemma_spawn_succeeds_while_playing(g: GameView, idx: nat)
    requires
        1 <= g.n <= 4096,
        g.body.len() >= 1,
        g.outcome == Outcome::Playing,
        play_inv(g),
    ensures
        spec_spawn_phase(g, idx).fruit is Some,
{
    if g.fruit is None {
        assert forall|i: int, j: int|
            0 <= i < g.body.len() && 0 <= j < g.body.len() && i != j implies g.body[i]
            != g.body[j] by {
            if i < j {
                assert(g.body[i] != g.body[j]);
            } else {
                assert(g.body[j] != g.body[i]);
            }
        }
        assert(g.body.no_duplicates());
        crate::fruit::lemma_free_cell_exists(g.n, g.body);
    }
}

/// Choices beyond the fruit placement do not matter: when a fruit is
/// already present, or the session is terminal, a tick is the same for
/// every choice. Randomness enters the simulation only through the cell
/// of a newly placed fruit.
pub proof fn lemma_tick_choice_irrelevant(g: GameView, i: nat, j: nat)
    requires
        g.fruit is Some || g.outcome != Outcome::Playing,
    ensures
        spec_tick(g, i) == spec_tick(g, j),
{
    assert(spec_tick(g, i) =~= spec_tick(g, j));
}

} // verus!

