//! Which way an entity faces, and how that turns absolute stick positions into
//! positions relative to the entity.

use vstd::prelude::*;
use crate::stick_position::StickPosition;

verus! {

/// The side that an entity faces.
#[derive(Clone, Copy, Debug, Hash, PartialEq, Eq, Structural)]
pub enum LRDirection {
    Right,
    Left,
}

/// A side of the screen, whatever an entity faces.
#[derive(Clone, Copy, Debug, Hash, PartialEq, Eq, Structural)]
pub enum AbsoluteDirection {
    Right,
    Left,
}

impl LRDirection {
    /// The stick position as seen by an entity that faces this way.
    pub open spec fn mirrored(self, stick: StickPosition) -> StickPosition {
        match self {
            LRDirection::Right => stick,
            LRDirection::Left => stick.flipped(),
        }
    }

    /// The facing of an entity that is mirrored (`true`) or is not.
    pub open spec fn of_flipped(flipped: bool) -> LRDirection {
        if flipped {
            LRDirection::Left
        } else {
            LRDirection::Right
        }
    }

    /// Turns an absolute stick position into one relative to the facing: an
    /// entity that faces left sees east and west exchanged.
    pub fn mirror_stick(&self, stick: StickPosition) -> (p: StickPosition)
        ensures
            p == self.mirrored(stick),
    {
        match self {
            LRDirection::Right => stick,
            LRDirection::Left => stick.flip(),
        }
    }

    /// Faces left if `flipped`, right otherwise.
    pub fn set_flipped(&mut self, flipped: bool)
        ensures
            *final(self) == LRDirection::of_flipped(flipped),
    {
        if flipped {
            *self = LRDirection::Left;
        } else {
            *self = LRDirection::Right;
        }
    }
}

impl Default for LRDirection {
    fn default() -> (d: LRDirection)
        ensures
            d == LRDirection::Right,
    {
        LRDirection::Right
    }
}

/// Seen twice through the same facing, a stick position is itself again.
pub proof fn lemma_mirror_involution(facing: LRDirection, stick: StickPosition)
    ensures
        facing.mirrored(facing.mirrored(stick)) == stick,
{
}

} // verus!
