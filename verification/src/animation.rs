use vstd::prelude::*;

verus! {

/// The frames of a sprite sheet that an animation runs through, both ends
/// included.
#[derive(Clone, Copy, Debug, PartialEq, Eq, Structural)]
pub struct AnimationIndices {
    pub first: usize,
    pub last: usize,
}

impl AnimationIndices {
    /// The frame after `index` when the animation timer finishes: the next
    /// one, or the first where `index` is the last or lies outside the range.
    pub open spec fn spec_next_index(self, index: usize) -> usize {
        if !(self.first <= index && index <= self.last) || index == self.last {
            self.first
        } else {
            (index + 1) as usize
        }
    }

    /// The frame after `index` when the animation timer finishes.
    pub fn next_index(&self, index: usize) -> (next: usize)
        ensures
            next == self.spec_next_index(index),
    {
        if !(self.first <= index && index <= self.last) || index == self.last {
            self.first
        } else {
            index + 1
        }
    }
}

/// Law: an animation stays in its range once in it, and enters it at the
/// next frame from anywhere.
pub proof fn law_next_index_in_range(a: AnimationIndices, index: usize)
    requires
        a.first <= a.last,
    ensures
        a.first <= a.spec_next_index(index) <= a.last,
{
}

/// What the player is doing, as far as its animation goes.
#[derive(Clone, Copy, Debug, PartialEq, Eq, Structural)]
pub enum PlayerState {
    Idle,
    Walking,
    Jumping,
    /// Whether the jetpack pushes up.
    Jetpack(bool),
    Dead,
}

/// The frames of the player's sprite sheet for each state.
pub open spec fn spec_player_animation(state: PlayerState) -> (usize, usize) {
    match state {
        PlayerState::Idle => (0, 1),
        PlayerState::Walking => (8, 11),
        PlayerState::Jumping => (16, 23),
        PlayerState::Jetpack(up) => if up { (24, 26) } else { (32, 32) },
        PlayerState::Dead => (0, 0),
    }
}

/// The frames of the player's sprite sheet for a state.
pub fn player_animation(state: PlayerState) -> (indices: AnimationIndices)
    ensures
        (indices.first, indices.last) == spec_player_animation(state),
{
    let (first, last) = match state {
        PlayerState::Idle => (0, 1),
        PlayerState::Walking => (8, 11),
        PlayerState::Jumping => (16, 23),
        PlayerState::Jetpack(up) => {
            if up {
                (24, 26)
            } else {
                (32, 32)
            }
        },
        PlayerState::Dead => (0, 0),
    };
    AnimationIndices { first, last }
}

} // verus!
