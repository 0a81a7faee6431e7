//! The fruit spawner: enumerates the free cells of the board (board cells
//! minus the snake body, in row-major order) and picks one of them, either
//! at a caller-chosen index or uniformly at random.
use vstd::prelude::*;

use crate::grid::{Position, all_cells, contains_pos, spec_all_cells, spec_in_bounds};

verus! {

/// The cells of `cells` that `body` does not occupy, in the order of
/// `cells`.
pub open spec fn spec_free_of(cells: Seq<Position>, body: Seq<Position>) -> Seq<Position>
    decreases cells.len(),
{
    if cells.len() == 0 {
        Seq::empty()
    } else if body.contains(cells.last()) {
        spec_free_of(cells.drop_last(), body)
    } else {
        spec_free_of(cells.drop_last(), body).push(cells.last())
    }
}

/// The free cells of the `n` x `n` board: every board cell not occupied by
/// `body`, in row-major order.
pub open spec fn spec_free_cells(n: int, body: Seq<Position>) -> Seq<Position> {
    spec_free_of(spec_all_cells(n), body)
}

/// Every free cell comes from `cells` and is not in `body`.
pub proof fn lemma_free_of_membership(cells: Seq<Position>, body: Seq<Position>)
    ensures
        forall|i: int|
            0 <= i < spec_free_of(cells, body).len() ==> cells.contains(
                #[trigger] spec_free_of(cells, body)[i],
            ) && !body.contains(spec_free_of(cells, body)[i]),
    decreases cells.len(),
{
    if cells.len() == 0 {
    } else {
        lemma_free_of_membership(cells.drop_last(), body);
        assert forall|i: int| 0 <= i < spec_free_of(cells, body).len() implies cells.contains(
            #[trigger] spec_free_of(cells, body)[i],
        ) && !body.contains(spec_free_of(cells, body)[i]) by {
            let free = spec_free_of(cells, body);
            let init = spec_free_of(cells.drop_last(), body);
            if i < init.len() {
                assert(free[i] == init[i]);
                let j = choose|j: int| 0 <= j < cells.drop_last().len() && cells.drop_last()[j]
                    == init[i];
                assert(cells[j] == init[i]);
            } else {
                assert(free[i] == cells.last());
                assert(cells[cells.len() - 1] == cells.last());
            }
        }
    }
}

/// Every cell of the row-major enumeration lies on the board.
pub proof fn lemma_all_cells_in_bounds(n: int)
    requires
        1 <= n <= 4096,
    ensures
        forall|i: int|
            0 <= i < spec_all_cells(n).len() ==> spec_in_bounds(n, #[trigger] spec_all_cells(n)[i]),
{
    assert forall|i: int| 0 <= i < spec_all_cells(n).len() implies spec_in_bounds(
        n,
        #[trigger] spec_all_cells(n)[i],
    ) by {
        assert(0 <= i % n < n) by (nonlinear_arith)
            requires
                n > 0,
        ;
        assert(0 <= i / n < n) by (nonlinear_arith)
            requires
                n > 0,
                0 <= i,
                i < n * n,
        ;
        assert(((i % n) as i32) as int == i % n);
        assert(((i / n) as i32) as int == i / n);
    }
}

/// A free cell lies on the board and off the snake body.
pub proof fn lemma_free_cells_membership(n: int, body: Seq<Position>)
    requires
        1 <= n <= 4096,
    ensures
        forall|i: int|
            0 <= i < spec_free_cells(n, body).len() ==> spec_in_bounds(
                n,
                #[trigger] spec_free_cells(n, body)[i],
            ) && !body.contains(spec_free_cells(n, body)[i]),
{
    lemma_free_of_membership(spec_all_cells(n), body);
    lemma_all_cells_in_bounds(n);
    assert forall|i: int| 0 <= i < spec_free_cells(n, body).len() implies spec_in_bounds(
        n,
        #[trigger] spec_free_cells(n, body)[i],
    ) && !body.contains(spec_free_cells(n, body)[i]) by {
        let c = spec_free_cells(n, body)[i];
        assert(spec_all_cells(n).contains(c));
        let j = choose|j: int| 0 <= j < spec_all_cells(n).len() && spec_all_cells(n)[j] == c;
        assert(spec_in_bounds(n, spec_all_cells(n)[j]));
    }
}

/// A cell of `cells` that `body` leaves free appears among the free cells.
pub proof fn lemma_free_of_complete(cells: Seq<Position>, body: Seq<Position>, c: Position)
    requires
        cells.contains(c),
        !body.contains(c),
    ensures
        spec_free_of(cells, body).contains(c),
    decreases cells.len(),
{
    if cells.len() == 0 {
    } else {
        let init = spec_free_of(cells.drop_last(), body);
        if cells.last() == c {
            assert(spec_free_of(cells, body) == init.push(c));
            assert(spec_free_of(cells, body)[init.len() as int] == c);
        } else {
            let i = choose|i: int| 0 <= i < cells.len() && cells[i] == c;
            assert(cells.drop_last()[i] == c);
            assert(cells.drop_last().contains(c));
            lemma_free_of_complete(cells.drop_last(), body, c);
            let j = choose|j: int| 0 <= j < init.len() && init[j] == c;
            if !body.contains(cells.last()) {
                assert(spec_free_of(cells, body)[j] == c);
            }
        }
    }
}

/// The row-major index of a board cell.
pub open spec fn spec_cell_index(n: int, p: Position) -> int {
    p.y * n + p.x
}

/// A snake that does not cover the whole board leaves a free cell, so
/// fruit placement on its board always succeeds.
pub proof fn lemma_free_cell_exists(n: int, body: Seq<Position>)
    requires
        1 <= n <= 4096,
        forall|i: int| 0 <= i < body.len() ==> spec_in_bounds(n, #[trigger] body[i]),
        body.no_duplicates(),
        body.len() < n * n,
    ensures
        spec_free_cells(n, body).len() > 0,
{
    broadcast use vstd::seq_lib::seq_to_set_is_finite;

    let total = n * n;
    let idxs = Seq::new(body.len(), |i: int| spec_cell_index(n, body[i]));
    assert forall|i: int| 0 <= i < idxs.len() implies 0 <= #[trigger] idxs[i] < total by {
        let p = body[i];
        assert(0 <= p.y * n + p.x < n * n) by (nonlinear_arith)
            requires
                0 <= p.x < n,
                0 <= p.y < n,
        ;
    }
    assert forall|i: int, j: int|
        0 <= i < idxs.len() && 0 <= j < idxs.len() && i != j implies #[trigger] idxs[i]
        != #[trigger] idxs[j] by {
        let p = body[i];
        let q = body[j];
        assert(p != q);
        assert(p.y * n + p.x != q.y * n + q.x) by (nonlinear_arith)
            requires
                0 <= p.x < n,
                0 <= q.x < n,
                0 <= p.y,
                0 <= q.y,
                !(p.x == q.x && p.y == q.y),
        ;
    }
    assert(idxs.no_duplicates());
    idxs.unique_seq_to_set();
    let s = idxs.to_set();
    vstd::set_lib::lemma_int_range(0, total);
    // Fewer occupied indices than board cells: some index is missing.
    assert(!(forall|k: int| 0 <= k < total ==> s.contains(k))) by {
        if forall|k: int| 0 <= k < total ==> #[trigger] s.contains(k) {
            assert(vstd::set_lib::set_int_range(0, total).subset_of(s));
            vstd::set_lib::lemma_len_subset(vstd::set_lib::set_int_range(0, total), s);
            assert(false);
        }
    }
    let k = choose|k: int| 0 <= k < total && !s.contains(k);
    let c = spec_all_cells(n)[k];
    assert(0 <= k % n < n) by (nonlinear_arith)
        requires
            n > 0,
    ;
    assert(0 <= k / n < n) by (nonlinear_arith)
        requires
            n > 0,
            0 <= k < n * n,
    ;
    vstd::arithmetic::div_mod::lemma_fundamental_div_mod(k, n);
    assert(spec_cell_index(n, c) == (k / n) * n + (k % n));
    assert((k / n) * n + (k % n) == k) by (nonlinear_arith)
        requires
            n != 0,
            k == n * (k / n) + k % n,
    ;
    assert(!body.contains(c)) by {
        if body.contains(c) {
            let i = choose|i: int| 0 <= i < body.len() && body[i] == c;
            assert(idxs[i] == k);
            assert(idxs.contains(k));
            assert(s.contains(k));
            assert(false);
        }
    }
    assert(spec_all_cells(n).contains(c));
    lemma_free_of_complete(spec_all_cells(n), body, c);
    let m = choose|m: int|
        0 <= m < spec_free_cells(n, body).len() && spec_free_cells(n, body)[m] == c;
    assert(spec_free_cells(n, body).len() > 0);
}

/// The free cells of the `n` x `n` board given the occupied `body` cells,
/// in row-major order.
pub fn free_cells(n: i32, body: &Vec<Position>) -> (r: Vec<Position>)
    requires
        1 <= n <= 4096,
    ensures
        r@ == spec_free_cells(n as int, body@),
{
    let cells = all_cells(n);
    let mut r: Vec<Position> = Vec::new();
    let mut k: usize = 0;
    while k < cells.len()
        invariant
            cells@ == spec_all_cells(n as int),
            k <= cells@.len(),
            r@ == spec_free_of(cells@.take(k as int), body@),
        decreases cells@.len() - k,
    {
        let c = cells[k];
        if !contains_pos(body, c) {
            r.push(c);
        }
        k = k + 1;
        proof {
            assert(cells@.take(k as int).drop_last() =~= cells@.take(k as int - 1));
            assert(cells@.take(k as int).last() == c);
        }
    }
    proof {
        assert(cells@.take(cells@.len() as int) =~= cells@);
    }
    r
}

/// Deterministic placement: the free cell at `idx` (taken modulo the
/// number of free cells), or None when the body covers the whole board.
pub open spec fn spec_place(n: int, body: Seq<Position>, idx: nat) -> Option<Position> {
    let free = spec_free_cells(n, body);
    if free.len() == 0 {
        None
    } else {
        Some(free[(idx as int) % (free.len() as int)])
    }
}

/// Places the fruit on the free cell selected by `idx`; None iff no cell
/// is free.
pub fn place_at(n: i32, body: &Vec<Position>, idx: usize) -> (r: Option<Position>)
    requires
        1 <= n <= 4096,
    ensures
        r == spec_place(n as int, body@, idx as nat),
{
    let free = free_cells(n, body);
    if free.len() == 0 {
        None
    } else {
        Some(free[idx % free.len()])
    }
}

/// Relies on rand::random_range: a uniform draw from `0..len`, which is
/// below `len`; the range is nonempty, so the call does not panic.
#[verifier::external_body]
pub(crate) fn random_below(len: usize) -> (r: usize)
    requires
        len > 0,
    ensures
        r < len,
{
    rand::random_range(0..len)
}

/// Places the fruit on a free cell drawn uniformly at random; None iff no
/// cell is free. Every outcome lies on the board, off the snake body.
pub fn place(n: i32, body: &Vec<Position>) -> (r: Option<Position>)
    requires
        1 <= n <= 4096,
    ensures
        r is Some <==> spec_free_cells(n as int, body@).len() > 0,
        r matches Some(p) ==> exists|idx: nat| spec_place(n as int, body@, idx) == Some(p),
        r matches Some(p) ==> spec_in_bounds(n as int, p) && !body@.contains(p),
{
    let free = free_cells(n, body);
    if free.len() == 0 {
        None
    } else {
        let idx = random_below(free.len());
        let p = free[idx];
        proof {
            vstd::arithmetic::div_mod::lemma_small_mod(idx as nat, free@.len());
            assert((idx as int) % (free@.len() as int) == idx as int);
            assert(spec_place(n as int, body@, idx as nat) == Some(p));
            lemma_free_cells_membership(n as int, body@);
        }
        Some(p)
    }
}

} // verus!
