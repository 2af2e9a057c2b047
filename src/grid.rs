use rand::seq::SliceRandom;
use vstd::arithmetic::div_mod::{
    lemma_div_pos_is_pos, lemma_fundamental_div_mod, lemma_mod_pos_bound, lemma_multiply_divide_lt,
};
use vstd::prelude::*;
use vstd::set_lib::{lemma_int_range, lemma_len_subset, lemma_map_size, set_int_range};

use crate::direction::SnakeState;

verus! {

/// Grid dimensions: width, then height. Valid cells are
/// `[0, width) x [0, height)`.
#[derive(Clone, Copy, Debug, PartialEq, Eq, Structural)]
pub struct Arena(pub u32, pub u32);

impl Arena {
    /// Every cell of the arena can be written as a `Position`.
    pub open spec fn wf(self) -> bool {
        self.0 <= i32::MAX && self.1 <= i32::MAX
    }

    /// The spawn cell of the head.
    pub open spec fn spec_center(self) -> Position {
        Position((self.0 / 2) as i32, (self.1 / 2) as i32)
    }

    pub fn center(&self) -> (r: Position)
        ensures
            r == self.spec_center(),
    {
        Position((self.0 / 2) as i32, (self.1 / 2) as i32)
    }

    /// Whether `p` lies on the grid.
    pub fn contains(&self, p: Position) -> (r: bool)
        ensures
            r == in_arena(*self, p),
    {
        p.0 >= 0 && p.1 >= 0 && (p.0 as u32) < self.0 && (p.1 as u32) < self.1
    }
}

/// A grid cell.
#[derive(Clone, Copy, Debug, PartialEq, Eq, Structural)]
pub struct Position(pub i32, pub i32);

pub open spec fn in_arena(a: Arena, p: Position) -> bool {
    0 <= p.0 < a.0 && 0 <= p.1 < a.1
}

/// Column offset of one step along `d`.
pub open spec fn dx(d: SnakeState) -> int {
    match d {
        SnakeState::Left => -1,
        SnakeState::Right => 1,
        _ => 0,
    }
}

/// Row offset of one step along `d`.
pub open spec fn dy(d: SnakeState) -> int {
    match d {
        SnakeState::Down => -1,
        SnakeState::Up => 1,
        _ => 0,
    }
}

/// Both coordinates can move one cell either way without leaving `i32`.
pub open spec fn has_room(p: Position) -> bool {
    i32::MIN < p.0 < i32::MAX && i32::MIN < p.1 < i32::MAX
}

/// The neighbour of `p` along `d`.
pub open spec fn spec_step(p: Position, d: SnakeState) -> Position {
    Position((p.0 + dx(d)) as i32, (p.1 + dy(d)) as i32)
}

impl Position {
    /// Component-wise difference.
    pub fn sub(self, rhs: Position) -> (r: Position)
        requires
            i32::MIN <= self.0 - rhs.0 <= i32::MAX,
            i32::MIN <= self.1 - rhs.1 <= i32::MAX,
        ensures
            r.0 == self.0 - rhs.0,
            r.1 == self.1 - rhs.1,
    {
        Position(self.0 - rhs.0, self.1 - rhs.1)
    }

    /// The neighbouring cell along `d`.
    pub fn step(self, d: SnakeState) -> (r: Position)
        requires
            has_room(self),
        ensures
            r == spec_step(self, d),
            r.0 == self.0 + dx(d),
            r.1 == self.1 + dy(d),
    {
        match d {
            SnakeState::Left => Position(self.0 - 1, self.1),
            SnakeState::Right => Position(self.0 + 1, self.1),
            SnakeState::Down => Position(self.0, self.1 - 1),
            SnakeState::Up => Position(self.0, self.1 + 1),
        }
    }
}

/// Whether `p` occurs in `cells`.
pub fn occupied(cells: &Vec<Position>, p: Position) -> (r: bool)
    ensures
        r == cells@.contains(p),
{
    let mut i: usize = 0;
    while i < cells.len()
        invariant
            i <= cells@.len(),
            forall|j: int| 0 <= j < i ==> cells@[j] != p,
        decreases cells@.len() - i,
    {
        if cells[i] == p {
            return true;
        }
        i = i + 1;
    }
    false
}

/// Column-major order of cells: by column, then by row.
pub open spec fn before(p: Position, q: Position) -> bool {
    p.0 < q.0 || (p.0 == q.0 && p.1 < q.1)
}

/// A cell of the arena that `taken` does not hold.
pub open spec fn free_in(a: Arena, taken: Seq<Position>, p: Position) -> bool {
    in_arena(a, p) && !taken.contains(p)
}

/// Every cell of the arena is taken.
pub open spec fn arena_full(a: Arena, taken: Seq<Position>) -> bool {
    forall|p: Position| in_arena(a, p) ==> #[trigger] taken.contains(p)
}

/// The cell at index `i` when the arena's cells are counted column by
/// column, `h` cells to a column.
pub open spec fn cell_at(h: int, i: int) -> Position {
    Position((i / h) as i32, (i % h) as i32)
}

/// A snake with fewer segments than the arena has cells leaves a cell free.
pub proof fn lemma_short_snake_leaves_room(a: Arena, taken: Seq<Position>)
    requires
        a.wf(),
        taken.len() < a.0 * a.1,
    ensures
        !arena_full(a, taken),
{
    let w = a.0 as int;
    let h = a.1 as int;
    if h == 0 {
        assert(w * h == 0) by (nonlinear_arith)
            requires
                h == 0,
        ;
        return;
    }
    assert(0 <= w * h) by (nonlinear_arith)
        requires
            0 <= w,
            0 < h,
    ;
    let range = set_int_range(0, w * h);
    lemma_int_range(0, w * h);
    let f = |i: int| cell_at(h, i);
    assert forall|i: int| 0 <= i < w * h implies 0 <= #[trigger] (i / h) < w && 0 <= i % h < h
        && i == h * (i / h) + i % h by {
        lemma_div_pos_is_pos(i, h);
        assert(i < h * w) by (nonlinear_arith)
            requires
                i < w * h,
        ;
        lemma_multiply_divide_lt(i, h, w);
        lemma_mod_pos_bound(i, h);
        lemma_fundamental_div_mod(i, h);
    }
    assert forall|i: int, j: int| range.contains(i) && range.contains(j) && #[trigger] f(i) == #[trigger] f(j) implies i
        == j by {
        assert(i == h * (i / h) + i % h);
        assert(j == h * (j / h) + j % h);
    }
    let cells = range.map(f);
    lemma_map_size(range, cells, f);
    if arena_full(a, taken) {
        assert forall|p: Position| cells.contains(p) implies taken.to_set().contains(p) by {
            let i = choose|i: int| range.contains(i) && f(i) == p;
            assert(0 <= i / h < w && 0 <= i % h < h);
            assert(in_arena(a, p));
            assert(taken.contains(p));
        }
        taken.lemma_cardinality_of_set();
        lemma_len_subset(cells, taken.to_set());
    }
}

/// The free cells of the arena, each once, in column-major order.
pub fn free_cells(arena: &Arena, taken: &Vec<Position>) -> (r: Vec<Position>)
    requires
        arena.wf(),
    ensures
        forall|p: Position| r@.contains(p) <==> free_in(*arena, taken@, p),
        forall|i: int, j: int| 0 <= i < j < r@.len() ==> before(#[trigger] r@[i], #[trigger] r@[j]),
{
    let mut cells: Vec<Position> = Vec::new();
    let mut x: u32 = 0;
    while x < arena.0
        invariant
            arena.wf(),
            x <= arena.0,
            forall|p: Position| cells@.contains(p) <==> (free_in(*arena, taken@, p) && p.0 < x),
            forall|i: int, j: int| 0 <= i < j < cells@.len() ==> before(#[trigger] cells@[i], #[trigger] cells@[j]),
            forall|i: int| 0 <= i < cells@.len() ==> #[trigger] cells@[i].0 < x,
        decreases arena.0 - x,
    {
        let mut y: u32 = 0;
        while y < arena.1
            invariant
                arena.wf(),
                x < arena.0,
                y <= arena.1,
                forall|p: Position| cells@.contains(p) <==> (free_in(*arena, taken@, p) && (p.0 < x || (p.0 == x && p.1 < y))),
                forall|i: int, j: int| 0 <= i < j < cells@.len() ==> before(#[trigger] cells@[i], #[trigger] cells@[j]),
                forall|i: int| 0 <= i < cells@.len() ==> before(#[trigger] cells@[i], Position(x as i32, y as i32)),
            decreases arena.1 - y,
        {
            let p = Position(x as i32, y as i32);
            if !occupied(taken, p) {
                let ghost old_cells = cells@;
                cells.push(p);
                assert(free_in(*arena, taken@, p));
                assert forall|q: Position| cells@.contains(q) <==> (free_in(*arena, taken@, q) && (q.0 < x || (q.0 == x && q.1 < y + 1))) by {
                    if cells@.contains(q) && q != p {
                        let k = choose|k: int| 0 <= k < cells@.len() && cells@[k] == q;
                        assert(k < old_cells.len());
                        assert(old_cells[k] == q);
                        assert(old_cells.contains(q));
                    }
                    if q != p && free_in(*arena, taken@, q) && (q.0 < x || (q.0 == x && q.1 < y)) {
                        assert(old_cells.contains(q));
                        let k = choose|k: int| 0 <= k < old_cells.len() && old_cells[k] == q;
                        assert(cells@[k] == q);
                    }
                    if q == p {
                        assert(cells@[cells@.len() - 1] == q);
                    }
                }
            } else {
                assert forall|q: Position| cells@.contains(q) <==> (free_in(*arena, taken@, q) && (q.0 < x || (q.0 == x && q.1 < y + 1))) by {
                    if q.0 == x && q.1 == y {
                        assert(q == p);
                        assert(taken@.contains(q));
                    }
                }
            }
            y = y + 1;
        }
        x = x + 1;
    }
    cells
}

/// Relies on rand's `SliceRandom::choose` with the thread-local generator:
/// `None` for an empty list, else one of its elements.
#[verifier::external_body]
fn choose_cell(cells: &Vec<Position>) -> (r: Option<Position>)
    ensures
        r is None <==> cells@.len() == 0,
        r is Some ==> cells@.contains(r->0),
{
    cells.choose(&mut rand::thread_rng()).copied()
}

/// Picks a cell of the arena that `taken` does not hold, at random among all
/// such cells; `None` when every cell is taken.
pub fn generate_random_position(arena: &Arena, taken: &Vec<Position>) -> (r: Option<Position>)
    requires
        arena.wf(),
    ensures
        r is None <==> arena_full(*arena, taken@),
        r matches Some(p) ==> free_in(*arena, taken@, p),
        taken@.len() < arena.0 * arena.1 ==> r is Some,
{
    proof {
        if taken@.len() < arena.0 * arena.1 {
            lemma_short_snake_leaves_room(*arena, taken@);
        }
    }
    let cells = free_cells(arena, taken);
    let r = choose_cell(&cells);
    if cells.len() == 0 {
        assert forall|p: Position| in_arena(*arena, p) implies #[trigger] taken@.contains(p) by {
            if !taken@.contains(p) {
                assert(cells@.contains(p));
            }
        }
    } else {
        let c = cells[0];
        assert(cells@.contains(c));
        assert(free_in(*arena, taken@, c));
    }
    r
}

} // verus!
