use vstd::prelude::*;

use crate::direction::{switched, LatestState, SnakeState};
use crate::grid::{
    arena_full, free_in, generate_random_position, has_room, in_arena, occupied, spec_step, Arena,
    Position,
};

verus! {

/// Signal that the snake ate and gains one segment.
#[derive(Clone, Copy, Debug, PartialEq, Eq, Structural)]
pub struct GrowthEvent;

/// Signal that a new food item should be placed.
#[derive(Clone, Copy, Debug, PartialEq, Eq, Structural)]
pub struct FoodEvent;

/// Signal that the head left the arena or ran into the body.
#[derive(Clone, Copy, Debug, PartialEq, Eq, Structural)]
pub struct GameOverEvent;

/// Which direction keys are held in this frame.
#[derive(Clone, Copy, Debug, PartialEq, Eq, Structural)]
pub struct DirectionKeys {
    pub left: bool,
    pub right: bool,
    pub up: bool,
    pub down: bool,
}

/// The signals raised by one movement tick.
#[derive(Clone, Copy, Debug, PartialEq, Eq, Structural)]
pub struct TickEvents {
    pub growth: Option<GrowthEvent>,
    pub food: Option<FoodEvent>,
    pub game_over: Option<GameOverEvent>,
}

/// The pending heading after the held keys are applied, in the order left,
/// right, up, down; the last one accepted wins.
pub open spec fn keys_applied(pending: SnakeState, head: SnakeState, keys: DirectionKeys) -> SnakeState {
    let a = if keys.left { switched(pending, SnakeState::Left, head) } else { pending };
    let b = if keys.right { switched(a, SnakeState::Right, head) } else { a };
    let c = if keys.up { switched(b, SnakeState::Up, head) } else { b };
    if keys.down { switched(c, SnakeState::Down, head) } else { c }
}

/// The body after one move along `d`: the head steps, every other segment
/// takes the place of the one ahead of it.
pub open spec fn moved_body(s: Seq<Position>, d: SnakeState) -> Seq<Position> {
    Seq::new(s.len(), |i: int| if i == 0 { spec_step(s[0], d) } else { s[i - 1] })
}

/// One move along `d` ends the game: the new head cell is off the grid or
/// held by a segment before the move.
pub open spec fn collides(a: Arena, s: Seq<Position>, d: SnakeState) -> bool {
    let h = spec_step(s[0], d);
    s.contains(h) || !in_arena(a, h)
}

/// The snake of a new game: head at the centre, one segment to its left.
pub open spec fn initial_snake(a: Arena) -> Seq<Position> {
    let c = a.spec_center();
    seq![c, Position((c.0 - 1) as i32, c.1)]
}

/// No two segments share a cell.
pub open spec fn distinct_cells(s: Seq<Position>) -> bool {
    forall|i: int, j: int| 0 <= i < j < s.len() ==> s[i] != s[j]
}

/// `food` is what placement may give for a snake on `segs`: absent only on
/// a full arena, otherwise a free cell.
pub open spec fn placed(a: Arena, segs: Seq<Position>, food: Option<Position>) -> bool {
    &&& (food is None <==> arena_full(a, segs))
    &&& (food matches Some(p) ==> free_in(a, segs, p))
}

/// The complete simulation state. `segments[0]` is the head.
#[derive(Clone, Debug)]
pub struct Game {
    pub arena: Arena,
    /// The pending heading, committed to the head on the next tick.
    pub latest_state: LatestState,
    /// The heading the head moved along last.
    pub head_state: SnakeState,
    pub segments: Vec<Position>,
    pub food: Option<Position>,
    /// The cell the tail left on the last move.
    pub last_tail_position: Option<Position>,
}

impl Game {
    /// A state from which a tick can run: the arena fits in `i32`, the
    /// snake has a head, and every segment can take one step.
    pub open spec fn wf(&self) -> bool {
        &&& self.arena.wf()
        &&& self.segments@.len() >= 1
        &&& forall|i: int| 0 <= i < self.segments@.len() ==> has_room(#[trigger] self.segments@[i])
    }

    /// The state right after a reset on `a`, before food is placed.
    pub open spec fn is_reset_state(&self, a: Arena) -> bool {
        &&& self.arena == a
        &&& self.segments@ == initial_snake(a)
        &&& self.latest_state == LatestState(SnakeState::Right)
        &&& self.head_state == SnakeState::Right
        &&& self.food is None
        &&& self.last_tail_position is None
    }

    /// The body after the coming move.
    pub open spec fn next_body(&self) -> Seq<Position> {
        moved_body(self.segments@, self.latest_state.0)
    }

    /// The coming move ends the game.
    pub open spec fn next_collides(&self) -> bool {
        collides(self.arena, self.segments@, self.latest_state.0)
    }

    /// The coming move puts the head on the food.
    pub open spec fn next_eats(&self) -> bool {
        self.food == Some(self.next_body()[0])
    }

    /// A fresh game on `arena`: the initial snake heading right, and a food
    /// item on a free cell.
    pub fn new(arena: Arena) -> (r: Game)
        requires
            arena.wf(),
        ensures
            r.wf(),
            r.arena == arena,
            r.segments@ == initial_snake(arena),
            r.latest_state == LatestState(SnakeState::Right),
            r.head_state == SnakeState::Right,
            r.last_tail_position is None,
            placed(arena, initial_snake(arena), r.food),
    {
        let mut g = Game {
            arena,
            latest_state: LatestState(SnakeState::Right),
            head_state: SnakeState::Right,
            segments: Vec::new(),
            food: None,
            last_tail_position: None,
        };
        let ev = g.spawn_snake();
        g.spawn_food(Some(ev));
        g
    }

    /// Places the initial snake (head at the centre heading right, one
    /// segment behind it) and asks for food.
    pub fn spawn_snake(&mut self) -> (r: FoodEvent)
        ensures
            final(self).segments@ == initial_snake(old(self).arena),
            final(self).head_state == SnakeState::Right,
            final(self).arena == old(self).arena,
            final(self).latest_state == old(self).latest_state,
            final(self).food == old(self).food,
            final(self).last_tail_position == old(self).last_tail_position,
    {
        let center = self.arena.center();
        let mut segs: Vec<Position> = Vec::new();
        segs.push(center);
        segs.push(center.sub(Position(1, 0)));
        self.segments = segs;
        self.head_state = SnakeState::Right;
        assert(self.segments@ =~= initial_snake(self.arena));
        FoodEvent
    }

    /// Applies the held direction keys to the pending heading, each against
    /// the heading the head moved along last.
    pub fn update_latest_state(&mut self, keys: DirectionKeys)
        ensures
            final(self).latest_state.0 == keys_applied(old(self).latest_state.0, old(self).head_state, keys),
            final(self).arena == old(self).arena,
            final(self).head_state == old(self).head_state,
            final(self).segments@ == old(self).segments@,
            final(self).food == old(self).food,
            final(self).last_tail_position == old(self).last_tail_position,
    {
        let head_state = self.head_state;
        if keys.left {
            self.latest_state.switch(SnakeState::Left, head_state);
        }
        if keys.right {
            self.latest_state.switch(SnakeState::Right, head_state);
        }
        if keys.up {
            self.latest_state.switch(SnakeState::Up, head_state);
        }
        if keys.down {
            self.latest_state.switch(SnakeState::Down, head_state);
        }
    }

    /// One movement step: records the tail cell, commits the pending
    /// heading, moves the head one cell and every other segment into the
    /// cell ahead of it. Signals game over when the new head cell is off the
    /// grid or was held by the body before the move.
    pub fn move_snake(&mut self) -> (r: Option<GameOverEvent>)
        requires
            old(self).wf(),
        ensures
            final(self).segments@ == moved_body(old(self).segments@, old(self).latest_state.0),
            final(self).head_state == old(self).latest_state.0,
            final(self).last_tail_position == Some(old(self).segments@.last()),
            r is Some <==> collides(old(self).arena, old(self).segments@, old(self).latest_state.0),
            final(self).arena == old(self).arena,
            final(self).latest_state == old(self).latest_state,
            final(self).food == old(self).food,
    {
        let n = self.segments.len();
        self.last_tail_position = Some(self.segments[n - 1]);
        self.head_state = self.latest_state.0;
        let head = self.segments[0];
        assert(has_room(self.segments@[0]));
        let new_head = head.step(self.head_state);
        let over = occupied(&self.segments, new_head) || !self.arena.contains(new_head);
        let moved = shifted(&self.segments, new_head);
        self.segments = moved;
        assert(self.segments@ =~= moved_body(old(self).segments@, old(self).latest_state.0));
        if over {
            Some(GameOverEvent)
        } else {
            None
        }
    }

    /// Eats the food when the head is on it: the food goes, and growth and
    /// new food are asked for.
    pub fn snake_eat(&mut self) -> (r: (Option<GrowthEvent>, Option<FoodEvent>))
        requires
            old(self).segments@.len() >= 1,
        ensures
            r.0 is Some <==> old(self).food == Some(old(self).segments@[0]),
            r.1 is Some <==> old(self).food == Some(old(self).segments@[0]),
            final(self).food == (if r.0 is Some { None } else { old(self).food }),
            final(self).arena == old(self).arena,
            final(self).latest_state == old(self).latest_state,
            final(self).head_state == old(self).head_state,
            final(self).segments@ == old(self).segments@,
            final(self).last_tail_position == old(self).last_tail_position,
    {
        let head = self.segments[0];
        match self.food {
            Some(f) => {
                if f == head {
                    self.food = None;
                    (Some(GrowthEvent), Some(FoodEvent))
                } else {
                    (None, None)
                }
            },
            None => (None, None),
        }
    }

    /// On a growth signal, appends one segment on the cell the tail left.
    pub fn grow_snake(&mut self, growth: Option<GrowthEvent>)
        requires
            growth is Some ==> old(self).last_tail_position is Some,
        ensures
            final(self).segments@ == (if growth is Some {
                old(self).segments@.push(old(self).last_tail_position->0)
            } else {
                old(self).segments@
            }),
            final(self).arena == old(self).arena,
            final(self).latest_state == old(self).latest_state,
            final(self).head_state == old(self).head_state,
            final(self).food == old(self).food,
            final(self).last_tail_position == old(self).last_tail_position,
    {
        if growth.is_some() {
            match self.last_tail_position {
                Some(p) => self.segments.push(p),
                None => {},
            }
        }
    }

    /// On a food signal, places food on a random free cell (none when the
    /// arena is full).
    pub fn spawn_food(&mut self, food_event: Option<FoodEvent>)
        requires
            old(self).arena.wf(),
        ensures
            food_event is Some ==> placed(old(self).arena, old(self).segments@, final(self).food),
            food_event is Some && old(self).segments@.len() < old(self).arena.0 * old(self).arena.1
                ==> final(self).food is Some,
            food_event is None ==> final(self).food == old(self).food,
            final(self).arena == old(self).arena,
            final(self).latest_state == old(self).latest_state,
            final(self).head_state == old(self).head_state,
            final(self).segments@ == old(self).segments@,
            final(self).last_tail_position == old(self).last_tail_position,
    {
        if food_event.is_some() {
            self.food = generate_random_position(&self.arena, &self.segments);
        }
    }

    /// On a game-over signal, clears the snake and the food, resets the
    /// heading to right and spawns the initial snake; asks for food.
    pub fn game_over(&mut self, game_over_event: Option<GameOverEvent>) -> (r: Option<FoodEvent>)
        ensures
            game_over_event is Some ==> final(self).is_reset_state(old(self).arena),
            game_over_event is Some <==> r is Some,
            game_over_event is None ==> (final(self).arena == old(self).arena
                && final(self).latest_state == old(self).latest_state
                && final(self).head_state == old(self).head_state
                && final(self).segments@ == old(self).segments@
                && final(self).food == old(self).food
                && final(self).last_tail_position == old(self).last_tail_position),
    {
        if game_over_event.is_some() {
            self.segments = Vec::new();
            self.food = None;
            self.last_tail_position = None;
            self.latest_state = LatestState(SnakeState::Right);
            Some(self.spawn_snake())
        } else {
            None
        }
    }

    /// One fixed-period tick: move, eat, grow, place food, then reset if
    /// the move ended the game (and place the first food of the new game).
    pub fn tick(&mut self) -> (r: TickEvents)
        requires
            old(self).wf(),
        ensures
            final(self).wf(),
            final(self).arena == old(self).arena,
            distinct_cells(old(self).segments@) ==> distinct_cells(final(self).segments@),
            r.game_over is Some <==> old(self).next_collides(),
            r.growth is Some <==> old(self).next_eats(),
            r.food is Some <==> (old(self).next_eats() || old(self).next_collides()),
            old(self).next_collides() ==> ({
                &&& final(self).segments@ == initial_snake(old(self).arena)
                &&& final(self).latest_state == LatestState(SnakeState::Right)
                &&& final(self).head_state == SnakeState::Right
                &&& final(self).last_tail_position is None
                &&& placed(old(self).arena, initial_snake(old(self).arena), final(self).food)
            }),
            !old(self).next_collides() ==> ({
                &&& final(self).segments@ == (if old(self).next_eats() {
                    old(self).next_body().push(old(self).segments@.last())
                } else {
                    old(self).next_body()
                })
                &&& final(self).head_state == old(self).latest_state.0
                &&& final(self).latest_state == old(self).latest_state
                &&& final(self).last_tail_position == Some(old(self).segments@.last())
                &&& (old(self).next_eats() ==> placed(old(self).arena, final(self).segments@, final(self).food))
                &&& (!old(self).next_eats() ==> final(self).food == old(self).food)
            }),
    {
        let game_over = self.move_snake();
        let (growth, food) = self.snake_eat();
        self.grow_snake(growth);
        self.spawn_food(food);
        let restart_food = self.game_over(game_over);
        self.spawn_food(restart_food);
        proof {
            let c = self.arena.spec_center();
            if game_over is Some {
                assert(has_room(self.segments@[0]));
                assert(has_room(self.segments@[1]));
                assert(distinct_cells(self.segments@));
            } else {
                let n = old(self).segments@.len();
                let s0 = old(self).segments@;
                if distinct_cells(s0) {
                    assert forall|i: int, j: int| 0 <= i < j < self.segments@.len() implies self.segments@[i]
                        != self.segments@[j] by {
                        if i == 0 {
                            assert(!s0.contains(self.segments@[0]));
                            if j < n {
                                assert(self.segments@[j] == s0[j - 1]);
                            } else {
                                assert(self.segments@[j] == s0[n - 1]);
                            }
                            assert(s0.contains(self.segments@[j]));
                        } else if j < n {
                            assert(self.segments@[i] == s0[i - 1]);
                            assert(self.segments@[j] == s0[j - 1]);
                        } else {
                            assert(self.segments@[i] == s0[i - 1]);
                            assert(self.segments@[j] == s0[n - 1]);
                        }
                    }
                }
                assert(in_arena(self.arena, self.segments@[0]));
                assert forall|i: int| 0 <= i < self.segments@.len() implies has_room(#[trigger] self.segments@[i]) by {
                    if i > 0 && i < n {
                        assert(self.segments@[i] == old(self).segments@[i - 1]);
                    }
                    if i == n {
                        assert(self.segments@[i] == old(self).segments@[n - 1]);
                    }
                }
            }
        }
        let any_food = food.is_some() || restart_food.is_some();
        TickEvents { growth, food: if any_food { Some(FoodEvent) } else { None }, game_over }
    }
}

/// One move keeps the body's shape: the head advances one cell along the
/// heading, every other segment takes the previous cell of the one ahead of
/// it, so the offsets between consecutive segments behind the head are
/// those of the segments one place ahead before the move.
pub proof fn lemma_move_keeps_shape(s: Seq<Position>, d: SnakeState)
    requires
        s.len() >= 1,
    ensures
        moved_body(s, d).len() == s.len(),
        moved_body(s, d)[0] == spec_step(s[0], d),
        forall|i: int| 1 <= i < s.len() ==> #[trigger] moved_body(s, d)[i] == s[i - 1],
        forall|i: int|
            1 <= i < s.len() - 1 ==> {
                &&& (#[trigger] moved_body(s, d)[i]).0 - moved_body(s, d)[i + 1].0 == s[i - 1].0 - s[i].0
                &&& moved_body(s, d)[i].1 - moved_body(s, d)[i + 1].1 == s[i - 1].1 - s[i].1
            },
{
}

/// A move ends the game exactly when the new head cell was held by a
/// segment before the move, or has a negative coordinate, or a coordinate
/// at or past the arena's width or height.
pub proof fn lemma_collision_cases(a: Arena, s: Seq<Position>, d: SnakeState)
    requires
        s.len() >= 1,
    ensures
        collides(a, s, d) <==> ({
            let h = spec_step(s[0], d);
            ||| s.contains(h)
            ||| h.0 < 0
            ||| h.1 < 0
            ||| h.0 >= a.0
            ||| h.1 >= a.1
        }),
{
}

/// Eating on a tick that does not end the game makes the snake exactly one
/// segment longer, and the new last segment sits where the tail was before
/// the move.
pub proof fn lemma_growth_at_old_tail(s: Seq<Position>, d: SnakeState)
    requires
        s.len() >= 1,
    ensures
        moved_body(s, d).push(s.last()).len() == s.len() + 1,
        moved_body(s, d).push(s.last()).last() == s.last(),
{
}

/// A reset leaves the same state whatever came before it: two segments,
/// head at the centre, heading right, no food and no recorded tail cell.
pub proof fn lemma_reset_is_uniform(g1: Game, g2: Game, a: Arena)
    requires
        g1.is_reset_state(a),
        g2.is_reset_state(a),
    ensures
        g1.segments@ == g2.segments@,
        g1.latest_state == g2.latest_state,
        g1.head_state == g2.head_state,
        g1.food == g2.food,
        g1.last_tail_position == g2.last_tail_position,
        g1.segments@.len() == 2,
        g1.segments@[0] == a.spec_center(),
        g1.head_state == SnakeState::Right,
{
}

/// `new_head` followed by every segment of `segments` but the last.
fn shifted(segments: &Vec<Position>, new_head: Position) -> (r: Vec<Position>)
    requires
        segments@.len() >= 1,
    ensures
        r@.len() == segments@.len(),
        r@[0] == new_head,
        forall|i: int| 1 <= i < r@.len() ==> r@[i] == segments@[i - 1],
{
    let mut r: Vec<Position> = Vec::new();
    r.push(new_head);
    let mut i: usize = 1;
    while i < segments.len()
        invariant
            1 <= i <= segments@.len(),
            r@.len() == i,
            r@[0] == new_head,
            forall|j: int| 1 <= j < i ==> r@[j] == segments@[j - 1],
        decreases segments@.len() - i,
    {
        r.push(segments[i - 1]);
        i = i + 1;
    }
    r
}

} // verus!
