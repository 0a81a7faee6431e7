use snake_game::game::{GameState, Outcome};
use snake_game::grid::{Direction, Position, in_bounds};
use snake_game::session::Session;
use snake_game::snake::Snake;

fn playing_state(n: i32, body: Vec<Position>, heading: Direction, fruit: Option<Position>) -> GameState {
    GameState {
        n,
        snake: Snake { body, heading, growth: 0 },
        fruit,
        outcome: Outcome::Playing,
    }
}

fn assert_pairwise_distinct(body: &[Position]) {
    for i in 0..body.len() {
        for j in (i + 1)..body.len() {
            assert_ne!(body[i], body[j]);
        }
    }
}

#[test]
fn new_session_starts_at_center_heading_down() {
    let g = GameState::new(10);
    assert_eq!(g.snake.body, vec![Position::new(5, 5)]);
    assert_eq!(g.snake.heading, Direction::Down);
    assert_eq!(g.snake.growth, 0);
    assert_eq!(g.fruit, None);
    assert_eq!(g.outcome, Outcome::Playing);
}

#[test]
fn first_tick_moves_head_down_without_growth() {
    let mut g = GameState::new(10);
    g.tick_at(0);
    assert_eq!(g.snake.body, vec![Position::new(5, 4)]);
    assert_eq!(g.outcome, Outcome::Playing);
    // The missing fruit was placed at the start of the tick; choice 0 is
    // the first free cell in row-major order.
    assert_eq!(g.fruit, Some(Position::new(0, 0)));
}

#[test]
fn eating_grows_on_the_following_tick() {
    let mut g = playing_state(
        10,
        vec![Position::new(5, 5)],
        Direction::Down,
        Some(Position::new(5, 4)),
    );
    g.tick_at(0);
    // The head reached the fruit: the fruit is consumed, the length is
    // still 1 and one growth unit is pending.
    assert_eq!(g.snake.body, vec![Position::new(5, 4)]);
    assert_eq!(g.fruit, None);
    assert_eq!(g.snake.growth, 1);
    g.tick_at(0);
    // On the following tick the body length becomes 2 and the fruit is
    // gone from its prior cell (the replacement sits elsewhere).
    assert_eq!(g.snake.body, vec![Position::new(5, 3), Position::new(5, 4)]);
    assert_eq!(g.snake.growth, 0);
    assert_ne!(g.fruit, Some(Position::new(5, 4)));
    assert_eq!(g.fruit, Some(Position::new(0, 0)));
}

#[test]
fn turn_requested_after_tick_applies_next_tick() {
    let mut g = playing_state(
        10,
        vec![Position::new(5, 5), Position::new(5, 6), Position::new(5, 7)],
        Direction::Down,
        Some(Position::new(9, 9)),
    );
    g.tick_at(0);
    // The turn request arrives only after this tick ran, so the old
    // heading moved the head to (5, 4).
    g.set_heading(Direction::Up);
    assert_eq!(
        g.snake.body,
        vec![Position::new(5, 4), Position::new(5, 5), Position::new(5, 6)]
    );
    assert_eq!(g.outcome, Outcome::Playing);
    // The reversal is accepted and applies on the next tick; here it runs
    // the head straight into the body.
    g.tick_at(0);
    assert_eq!(g.outcome, Outcome::LostSelfCollision);
}

#[test]
fn west_wall_is_lost_on_exactly_that_tick() {
    let mut g = playing_state(
        10,
        vec![Position::new(1, 5)],
        Direction::Left,
        Some(Position::new(9, 9)),
    );
    g.tick_at(0);
    // One cell short of the wall: still playing.
    assert_eq!(g.outcome, Outcome::Playing);
    assert_eq!(g.snake.body, vec![Position::new(0, 5)]);
    g.tick_at(0);
    // The head is now at x = -1: walled out on exactly this tick.
    assert_eq!(g.outcome, Outcome::LostWalledOut);
    assert_eq!(g.snake.body, vec![Position::new(-1, 5)]);
}

#[test]
fn east_wall_is_lost_at_x_equal_n() {
    let mut g = playing_state(
        10,
        vec![Position::new(9, 5)],
        Direction::Right,
        Some(Position::new(0, 0)),
    );
    g.tick_at(0);
    assert_eq!(g.outcome, Outcome::LostWalledOut);
    assert_eq!(g.snake.body, vec![Position::new(10, 5)]);
}

#[test]
fn terminal_states_are_absorbing() {
    let mut g = playing_state(
        10,
        vec![Position::new(0, 5)],
        Direction::Left,
        Some(Position::new(9, 9)),
    );
    g.tick_at(0);
    assert_eq!(g.outcome, Outcome::LostWalledOut);
    let body = g.snake.body.clone();
    let fruit = g.fruit;
    for i in 0..5 {
        g.tick_at(i);
        assert_eq!(g.outcome, Outcome::LostWalledOut);
        assert_eq!(g.snake.body, body);
        assert_eq!(g.fruit, fruit);
    }
}

#[test]
fn filling_the_board_wins() {
    // A 2 x 2 board, fruit choices steered so that every advance eats:
    // the snake grows each tick and covers the board in four ticks.
    let mut g = GameState::new(2);
    assert_eq!(g.snake.body, vec![Position::new(1, 1)]);

    // Free cells of [(1,1)] are [(0,0),(1,0),(0,1)]; choice 1 puts the
    // fruit at (1,0), exactly where heading Down moves the head.
    g.tick_at(1);
    assert_eq!(g.snake.body, vec![Position::new(1, 0)]);
    assert_eq!(g.fruit, None);
    assert_eq!(g.snake.growth, 1);
    assert_eq!(g.outcome, Outcome::Playing);

    g.set_heading(Direction::Left);
    g.tick_at(0); // fruit at (0,0), eaten on arrival
    assert_eq!(g.snake.body, vec![Position::new(0, 0), Position::new(1, 0)]);
    assert_eq!(g.outcome, Outcome::Playing);

    g.set_heading(Direction::Up);
    g.tick_at(0); // fruit at (0,1), eaten on arrival
    assert_eq!(
        g.snake.body,
        vec![Position::new(0, 1), Position::new(0, 0), Position::new(1, 0)]
    );
    assert_eq!(g.outcome, Outcome::Playing);

    g.set_heading(Direction::Right);
    g.tick_at(0); // the last free cell (1,1) gets the fruit; eaten on arrival
    assert_eq!(
        g.snake.body,
        vec![
            Position::new(1, 1),
            Position::new(0, 1),
            Position::new(0, 0),
            Position::new(1, 0)
        ]
    );
    // The body covers all four cells with no wall or self-collision: Won,
    // and no fruit is present any more.
    assert_eq!(g.outcome, Outcome::Won);
    assert_eq!(g.fruit, None);
    assert_pairwise_distinct(&g.snake.body);

    // Terminal: a further tick attempts no fruit spawn and changes nothing.
    g.tick_at(0);
    assert_eq!(g.fruit, None);
    assert_eq!(g.snake.body.len(), 4);
    assert_eq!(g.outcome, Outcome::Won);
}

#[test]
fn body_length_never_decreases_and_grows_by_at_most_one() {
    let mut g = GameState::new(2);
    let mut len = g.snake.body.len();
    let headings = [Direction::Down, Direction::Left, Direction::Up, Direction::Right];
    let choices = [1, 0, 0, 0];
    for k in 0..4 {
        g.set_heading(headings[k]);
        g.tick_at(choices[k]);
        let new_len = g.snake.body.len();
        assert!(new_len == len || new_len == len + 1);
        len = new_len;
    }
}

#[test]
fn segments_stay_distinct_while_playing() {
    let mut g = GameState::new(10);
    // Random fruit placement; the snake walks down four cells.
    for _ in 0..4 {
        g.tick();
        if g.outcome == Outcome::Playing {
            assert_pairwise_distinct(&g.snake.body);
            for p in &g.snake.body {
                assert!(in_bounds(10, *p));
            }
        }
    }
    assert_eq!(g.outcome, Outcome::Playing);
    // Wherever the random fruit went, the head walked four cells down.
    assert_eq!(g.snake.body[0], Position::new(5, 1));
}

#[test]
fn fixed_choices_reproduce_the_same_trace() {
    let headings = [
        Direction::Down,
        Direction::Left,
        Direction::Left,
        Direction::Up,
        Direction::Right,
    ];
    let choices: [usize; 5] = [7, 3, 11, 0, 42];
    let mut a = GameState::new(10);
    let mut b = GameState::new(10);
    for k in 0..5 {
        a.set_heading(headings[k]);
        b.set_heading(headings[k]);
        a.tick_at(choices[k]);
        b.tick_at(choices[k]);
        assert_eq!(a.snake.body, b.snake.body);
        assert_eq!(a.fruit, b.fruit);
        assert_eq!(a.snake.growth, b.snake.growth);
        assert_eq!(a.outcome, b.outcome);
    }
    assert_eq!(a.outcome, Outcome::Playing);
}

#[test]
fn outcome_messages() {
    assert_eq!(Outcome::Playing.message(), "");
    assert_eq!(Outcome::Won.message(), "You won!");
    assert_eq!(Outcome::LostWalledOut.message(), "Snake is crawled away!");
    assert_eq!(Outcome::LostSelfCollision.message(), "Snake ate itself!");
    assert!(!Outcome::Playing.is_terminal());
    assert!(Outcome::Won.is_terminal());
    assert!(Outcome::LostWalledOut.is_terminal());
    assert!(Outcome::LostSelfCollision.is_terminal());
}

#[test]
fn session_frame_gates_ticks_by_the_clock() {
    let mut s = Session::new(10);
    // Zero elapsed time: no tick fires, nothing moves.
    assert!(!s.frame(0, None));
    assert_eq!(s.game.snake.body, vec![Position::new(5, 5)]);
    // Half a period: still no tick, but the intent sets the heading.
    assert!(!s.frame(250, Some(Direction::Left)));
    assert_eq!(s.game.snake.body, vec![Position::new(5, 5)]);
    assert_eq!(s.game.snake.heading, Direction::Left);
    // The period completes: exactly one tick, one cell to the left.
    assert!(!s.frame(250, None));
    assert_eq!(s.game.snake.body, vec![Position::new(4, 5)]);
    assert_eq!(s.game.outcome, Outcome::Playing);
}

#[test]
fn session_reports_terminal_outcome() {
    let mut s = Session::new(10);
    // Walk left until the snake leaves the board: 5 cells to the wall,
    // one more to lose; each full period fires one tick.
    let mut over = s.frame(0, Some(Direction::Left));
    for _ in 0..6 {
        assert!(!over);
        over = s.frame(500, None);
    }
    assert!(over);
    assert_eq!(s.game.outcome, Outcome::LostWalledOut);
    assert_eq!(s.game.outcome.message(), "Snake is crawled away!");
}

#[test]
fn one_cell_board_starts_won() {
    let g = GameState::new(1);
    assert_eq!(g.outcome, Outcome::Won);
    let mut s = Session::new(1);
    let over = s.frame(500, None);
    assert!(over);
    assert_eq!(s.game.snake.body, vec![Position::new(0, 0)]);
}
