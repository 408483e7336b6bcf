//! What a player is doing on the ground, and the events that a state change emits.

use vstd::prelude::*;
use crate::direction::{AbsoluteDirection, LRDirection};
use crate::move_id::MoveId;

verus! {

/// The direction of a jump.
#[derive(Clone, Copy, Debug, PartialEq, Eq, Structural)]
pub enum JumpDirection {
    Neutral,
    Diagonal(AbsoluteDirection),
    Null,
}

impl Default for JumpDirection {
    fn default() -> (d: JumpDirection)
        ensures
            d == JumpDirection::Null,
    {
        JumpDirection::Null
    }
}

/// An event that a change of player state emits.
#[derive(Clone, Copy, Debug, PartialEq, Eq, Structural)]
pub enum StateEvent {
    Jump(JumpDirection),
    Hitbox { move_id: MoveId, ttl: usize },
    Null,
}

impl Default for StateEvent {
    fn default() -> (e: StateEvent)
        ensures
            e == StateEvent::Null,
    {
        StateEvent::Null
    }
}

/// What a grounded player is doing.
#[derive(Clone, Copy, Debug, PartialEq, Eq, Structural)]
pub enum GroundActivity {
    Stun(usize),
    Move(MoveId),
    Walk(usize, LRDirection),
    PreJump { launch_frame: usize, direction: Option<LRDirection>, held: bool },
    Crouching,
    Standing,
}

impl Default for GroundActivity {
    fn default() -> (a: GroundActivity)
        ensures
            a == GroundActivity::Standing,
    {
        GroundActivity::Standing
    }
}

} // verus!
