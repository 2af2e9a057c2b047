use vstd::prelude::*;

verus! {

/// A heading on the grid.
#[derive(Clone, Copy, Debug, PartialEq, Eq, Structural)]
pub enum SnakeState {
    Left,
    Right,
    Down,
    Up,
}

/// The heading that points the other way.
pub open spec fn opposite(d: SnakeState) -> SnakeState {
    match d {
        SnakeState::Left => SnakeState::Right,
        SnakeState::Right => SnakeState::Left,
        SnakeState::Down => SnakeState::Up,
        SnakeState::Up => SnakeState::Down,
    }
}

/// The pending heading after a request for `requested` while the head runs
/// along `head`: a request to turn straight back is dropped.
pub open spec fn switched(pending: SnakeState, requested: SnakeState, head: SnakeState) -> SnakeState {
    if opposite(head) == requested {
        pending
    } else {
        requested
    }
}

/// The most recently accepted directional intent, applied to the head on the
/// next movement tick.
#[derive(Clone, Copy, Debug, PartialEq, Eq, Structural)]
pub struct LatestState(pub SnakeState);

impl LatestState {
    pub fn get_opposite(snake_state: SnakeState) -> (r: SnakeState)
        ensures
            r == opposite(snake_state),
    {
        match snake_state {
            SnakeState::Left => SnakeState::Right,
            SnakeState::Right => SnakeState::Left,
            SnakeState::Down => SnakeState::Up,
            SnakeState::Up => SnakeState::Down,
        }
    }

    /// Accepts `new_state` unless it reverses `compared_to`.
    pub fn switch(&mut self, new_state: SnakeState, compared_to: SnakeState)
        ensures
            final(self).0 == switched(old(self).0, new_state, compared_to),
    {
        if Self::get_opposite(compared_to) != new_state {
            self.0 = new_state;
        }
    }
}

/// Every heading has a different opposite, and turning twice comes back.
pub proof fn lemma_opposite_involution(d: SnakeState)
    ensures
        opposite(opposite(d)) == d,
        opposite(d) != d,
{
}

/// A request to reverse the current head direction leaves the pending
/// heading as it was, whatever it was.
pub proof fn lemma_reversal_rejected(pending: SnakeState, head: SnakeState)
    ensures
        switched(pending, opposite(head), head) == pending,
{
}

} // verus!
