//! The snake model: an ordered body of cells (head first), the current
//! heading, and a counter of pending growth segments.
use vstd::prelude::*;

use crate::grid::{Direction, Position, spec_step, step};

verus! {

/// The snake. The body is ordered head first; insertion order is body
/// order. While a session is in play the cells are pairwise distinct.
pub struct Snake {
    pub body: Vec<Position>,
    pub heading: Direction,
    pub growth: u32,
}

impl Snake {
    /// A snake always has at least its head segment.
    pub open spec fn wf(self) -> bool {
        self.body@.len() >= 1
    }

    pub open spec fn head_spec(self) -> Position {
        self.body@[0]
    }

    /// A new snake: a single segment at `head`, no pending growth.
    pub fn new(head: Position, heading: Direction) -> (s: Snake)
        ensures
            s.body@ == seq![head],
            s.heading == heading,
            s.growth == 0,
            s.wf(),
    {
        let mut body: Vec<Position> = Vec::new();
        body.push(head);
        proof {
            assert(body@ =~= seq![head]);
        }
        Snake { body, heading, growth: 0 }
    }

    pub fn head(&self) -> (p: Position)
        requires
            self.wf(),
        ensures
            p == self.head_spec(),
    {
        self.body[0]
    }

    /// Requests a turn: the new heading is used from the next advance on.
    /// Several requests between two advances leave only the last one.
    /// A turn into the opposite of the current heading is accepted.
    pub fn set_heading(&mut self, d: Direction)
        ensures
            final(self).body == old(self).body,
            final(self).growth == old(self).growth,
            final(self).heading == d,
    {
        self.heading = d;
    }

    /// One more pending growth segment: the tail is kept through one
    /// further advance instead of being dropped.
    pub fn enqueue_growth(&mut self)
        requires
            old(self).growth < u32::MAX,
        ensures
            final(self).body == old(self).body,
            final(self).heading == old(self).heading,
            final(self).growth == old(self).growth + 1,
    {
        self.growth = self.growth + 1;
    }

    /// The body after one advance: the new head in front of the old body;
    /// the tail cell stays when a growth unit is pending and is dropped
    /// otherwise.
    pub open spec fn spec_advanced_body(body: Seq<Position>, new_head: Position, grow: bool) -> Seq<
        Position,
    > {
        if grow {
            seq![new_head] + body
        } else {
            seq![new_head] + body.drop_last()
        }
    }

    /// Moves the snake one cell along its heading: the new head cell is
    /// pushed to the front; if growth is pending one unit is consumed and
    /// the tail is kept, otherwise the tail is dropped. Returns the cell
    /// the tail vacated, or None when the snake grew.
    pub fn advance(&mut self) -> (vacated: Option<Position>)
        requires
            old(self).wf(),
            i32::MIN < old(self).head_spec().x < i32::MAX,
            i32::MIN < old(self).head_spec().y < i32::MAX,
        ensures
            final(self).wf(),
            final(self).heading == old(self).heading,
            final(self).body@ == Self::spec_advanced_body(
                old(self).body@,
                spec_step(old(self).head_spec(), old(self).heading),
                old(self).growth > 0,
            ),
            final(self).growth == if old(self).growth > 0 {
                old(self).growth - 1
            } else {
                0
            },
            vacated == if old(self).growth > 0 {
                None::<Position>
            } else {
                Some(old(self).body@.last())
            },
    {
        let new_head = step(self.body[0], self.heading);
        self.body.insert(0, new_head);
        proof {
            assert(self.body@ =~= seq![new_head] + old(self).body@);
        }
        if self.growth > 0 {
            self.growth = self.growth - 1;
            proof {
                assert(self.body@ =~= Self::spec_advanced_body(
                    old(self).body@,
                    new_head,
                    true,
                ));
            }
            None
        } else {
            let t = self.body.pop().unwrap();
            proof {
                assert(self.body@ =~= Self::spec_advanced_body(
                    old(self).body@,
                    new_head,
                    false,
                ));
            }
            Some(t)
        }
    }

    /// The cells the body occupies, in body order (head first).
    pub fn occupied_cells(&self) -> (r: Vec<Position>)
        ensures
            r@ == self.body@,
    {
        let mut r: Vec<Position> = Vec::new();
        let mut i: usize = 0;
        while i < self.body.len()
            invariant
                i <= self.body@.len(),
                r@ == self.body@.take(i as int),
            decreases self.body@.len() - i,
        {
            r.push(self.body[i]);
            i = i + 1;
            proof {
                assert(r@ =~= self.body@.take(i as int));
            }
        }
        proof {
            assert(r@ =~= self.body@);
        }
        r
    }

    /// True iff some body segment occupies `p`.
    pub fn occupies(&self, p: Position) -> (r: bool)
        ensures
            r == self.body@.contains(p),
    {
        crate::grid::contains_pos(&self.body, p)
    }
}

} // verus!
