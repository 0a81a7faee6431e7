//! Board geometry: cell positions, headings, bounds, and the row-major
//! enumeration of every cell of an `n` x `n` board.
use vstd::prelude::*;

verus! {

/// A cell on the board: an integer coordinate pair, zero-indexed.
#[derive(Copy, Clone, PartialEq, Eq, Structural, Debug)]
pub struct Position {
    pub x: i32,
    pub y: i32,
}

impl Position {
    pub fn new(x: i32, y: i32) -> (p: Position)
        ensures
            p == (Position { x, y }),
    {
        Position { x, y }
    }
}

/// A heading or a turn request: one of the four cardinal directions.
#[derive(Copy, Clone, PartialEq, Eq, Structural, Debug)]
pub enum Direction {
    Left,
    Right,
    Up,
    Down,
}

impl Direction {
    /// The reverse of a heading: Left and Right swap, Up and Down swap.
    pub open spec fn opposite_spec(self) -> Direction {
        match self {
            Direction::Left => Direction::Right,
            Direction::Right => Direction::Left,
            Direction::Up => Direction::Down,
            Direction::Down => Direction::Up,
        }
    }

    pub fn opposite(&self) -> (d: Direction)
        ensures
            d == self.opposite_spec(),
    {
        match *self {
            Direction::Left => Direction::Right,
            Direction::Right => Direction::Left,
            Direction::Up => Direction::Down,
            Direction::Down => Direction::Up,
        }
    }
}

/// True iff `p` lies on the `n` x `n` board.
pub open spec fn spec_in_bounds(n: int, p: Position) -> bool {
    0 <= p.x < n && 0 <= p.y < n
}

pub fn in_bounds(n: i32, p: Position) -> (r: bool)
    ensures
        r == spec_in_bounds(n as int, p),
{
    p.x >= 0 && p.x < n && p.y >= 0 && p.y < n
}

/// The cell one step from `p` along `d`; the y axis grows upwards.
pub open spec fn spec_step(p: Position, d: Direction) -> Position {
    match d {
        Direction::Left => Position { x: (p.x - 1) as i32, y: p.y },
        Direction::Right => Position { x: (p.x + 1) as i32, y: p.y },
        Direction::Up => Position { x: p.x, y: (p.y + 1) as i32 },
        Direction::Down => Position { x: p.x, y: (p.y - 1) as i32 },
    }
}

pub fn step(p: Position, d: Direction) -> (q: Position)
    requires
        i32::MIN < p.x < i32::MAX,
        i32::MIN < p.y < i32::MAX,
    ensures
        q == spec_step(p, d),
{
    match d {
        Direction::Left => Position { x: p.x - 1, y: p.y },
        Direction::Right => Position { x: p.x + 1, y: p.y },
        Direction::Up => Position { x: p.x, y: p.y + 1 },
        Direction::Down => Position { x: p.x, y: p.y - 1 },
    }
}

/// Every cell of the `n` x `n` board in row-major order: cell `k` is
/// `(k mod n, k div n)`, so a whole row of x values precedes the next y.
pub open spec fn spec_all_cells(n: int) -> Seq<Position> {
    Seq::new((n * n) as nat, |k: int| Position { x: (k % n) as i32, y: (k / n) as i32 })
}

pub fn all_cells(n: i32) -> (r: Vec<Position>)
    requires
        1 <= n <= 4096,
    ensures
        r@ == spec_all_cells(n as int),
{
    let nu = n as usize;
    proof {
        assert(nu * nu <= 4096 * 4096) by (nonlinear_arith)
            requires
                0 <= nu <= 4096,
        ;
    }
    let total: usize = nu * nu;
    let mut r: Vec<Position> = Vec::new();
    let mut k: usize = 0;
    while k < total
        invariant
            1 <= n <= 4096,
            nu == n,
            total == n * n,
            k <= total,
            r@ == spec_all_cells(n as int).take(k as int),
        decreases total - k,
    {
        proof {
            assert(0 <= (k as int) % (n as int) < n as int) by (nonlinear_arith)
                requires
                    n as int > 0,
            ;
            assert(0 <= (k as int) / (n as int) < n as int) by (nonlinear_arith)
                requires
                    n as int > 0,
                    0 <= k as int,
                    (k as int) < (n as int) * (n as int),
            ;
        }
        let x = (k % nu) as i32;
        let y = (k / nu) as i32;
        r.push(Position { x, y });
        k = k + 1;
        proof {
            assert(r@ =~= spec_all_cells(n as int).take(k as int));
        }
    }
    proof {
        assert(r@ =~= spec_all_cells(n as int));
    }
    r
}

/// True iff some element of `v`, at or after index `start`, equals `p`.
pub fn contains_pos_from(v: &Vec<Position>, start: usize, p: Position) -> (r: bool)
    requires
        start <= v@.len(),
    ensures
        r == v@.skip(start as int).contains(p),
{
    let mut i: usize = start;
    while i < v.len()
        invariant
            start <= i <= v@.len(),
            forall|j: int| start <= j < i ==> v@[j] != p,
        decreases v@.len() - i,
    {
        if v[i] == p {
            proof {
                assert(v@.skip(start as int)[i - start] == p);
            }
            return true;
        }
        i = i + 1;
    }
    proof {
        assert forall|j: int| 0 <= j < v@.skip(start as int).len() implies v@.skip(
            start as int,
        )[j] != p by {
            assert(v@.skip(start as int)[j] == v@[start + j]);
        }
    }
    false
}

/// True iff some element of `v` equals `p`.
pub fn contains_pos(v: &Vec<Position>, p: Position) -> (r: bool)
    ensures
        r == v@.contains(p),
{
    let r = contains_pos_from(v, 0, p);
    proof {
        assert(v@.skip(0) =~= v@);
    }
    r
}

} // verus!
