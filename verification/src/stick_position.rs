//! The nine positions of a digital stick, their mirror image, and their
//! numeric-pad and grid coordinates.

use vstd::prelude::*;

verus! {

/// A position of the stick: eight compass points and the rest position.
#[derive(Clone, Copy, Debug, PartialEq, Eq, Hash, Structural)]
pub enum StickPosition {
    NW,
    N,
    NE,
    W,
    Neutral,
    E,
    SW,
    S,
    SE,
}

/// A point of the integer grid. East is `x == 1`, north is `y == 1`.
#[derive(Clone, Copy, Debug, PartialEq, Eq, Hash, Structural)]
pub struct GridVector {
    pub x: i32,
    pub y: i32,
}

/// The position that lies at column `x` and row `y` of the grid, both in `-1 ..= 1`.
pub open spec fn position_at(x: int, y: int) -> StickPosition
    recommends
        -1 <= x <= 1,
        -1 <= y <= 1,
{
    if y == 1 {
        if x == -1 {
            StickPosition::NW
        } else if x == 0 {
            StickPosition::N
        } else {
            StickPosition::NE
        }
    } else if y == 0 {
        if x == -1 {
            StickPosition::W
        } else if x == 0 {
            StickPosition::Neutral
        } else {
            StickPosition::E
        }
    } else {
        if x == -1 {
            StickPosition::SW
        } else if x == 0 {
            StickPosition::S
        } else {
            StickPosition::SE
        }
    }
}

/// The position that a key of the numeric pad stands for: `1` is south-west,
/// `5` is the rest position, `9` is north-east.
pub open spec fn numpad_position(key: int) -> StickPosition
    recommends
        1 <= key <= 9,
{
    position_at((key - 1) % 3 - 1, (key - 1) / 3 - 1)
}

/// Where a directional pad button leaves the stick: the axis that the button
/// points along takes its delta times `value`, the other axis stays where
/// `current` has it. There is no such position where a coordinate leaves
/// `-1 ..= 1`.
pub open spec fn dpad_target(
    current: StickPosition,
    value: int,
    delta_x: Option<i32>,
    delta_y: Option<i32>,
) -> Option<StickPosition> {
    let x = match delta_x {
        Some(dx) => dx * value,
        None => current.column(),
    };
    let y = match delta_y {
        Some(dy) => dy * value,
        None => current.row(),
    };
    if -1 <= x <= 1 && -1 <= y <= 1 {
        Some(position_at(x, y))
    } else {
        None
    }
}

impl GridVector {
    /// Whether both coordinates lie in `-1 ..= 1`, where a stick position exists.
    pub open spec fn on_stick(self) -> bool {
        -1 <= self.x <= 1 && -1 <= self.y <= 1
    }
}

impl StickPosition {
    /// Column of the position on the grid: `-1` west, `0` centre, `1` east.
    pub open spec fn column(self) -> int {
        match self {
            StickPosition::NW | StickPosition::W | StickPosition::SW => -1,
            StickPosition::N | StickPosition::Neutral | StickPosition::S => 0,
            StickPosition::NE | StickPosition::E | StickPosition::SE => 1,
        }
    }

    /// Row of the position on the grid: `-1` south, `0` centre, `1` north.
    pub open spec fn row(self) -> int {
        match self {
            StickPosition::SW | StickPosition::S | StickPosition::SE => -1,
            StickPosition::W | StickPosition::Neutral | StickPosition::E => 0,
            StickPosition::NW | StickPosition::N | StickPosition::NE => 1,
        }
    }

    /// The mirror image of the position: east and west change places.
    pub open spec fn flipped(self) -> StickPosition {
        position_at(-self.column(), self.row())
    }

    /// The grid point of the position.
    pub fn to_grid(self) -> (v: GridVector)
        ensures
            v.x == self.column(),
            v.y == self.row(),
            v.on_stick(),
    {
        match self {
            StickPosition::NW => GridVector { x: -1, y: 1 },
            StickPosition::N => GridVector { x: 0, y: 1 },
            StickPosition::NE => GridVector { x: 1, y: 1 },
            StickPosition::W => GridVector { x: -1, y: 0 },
            StickPosition::Neutral => GridVector { x: 0, y: 0 },
            StickPosition::E => GridVector { x: 1, y: 0 },
            StickPosition::SW => GridVector { x: -1, y: -1 },
            StickPosition::S => GridVector { x: 0, y: -1 },
            StickPosition::SE => GridVector { x: 1, y: -1 },
        }
    }

    /// The position at a grid point whose coordinates lie in `-1 ..= 1`.
    pub fn from_grid(v: GridVector) -> (p: StickPosition)
        requires
            v.on_stick(),
        ensures
            p == position_at(v.x as int, v.y as int),
            p.column() == v.x,
            p.row() == v.y,
    {
        if v.y == 1 {
            if v.x == -1 {
                StickPosition::NW
            } else if v.x == 0 {
                StickPosition::N
            } else {
                StickPosition::NE
            }
        } else if v.y == 0 {
            if v.x == -1 {
                StickPosition::W
            } else if v.x == 0 {
                StickPosition::Neutral
            } else {
                StickPosition::E
            }
        } else {
            if v.x == -1 {
                StickPosition::SW
            } else if v.x == 0 {
                StickPosition::S
            } else {
                StickPosition::SE
            }
        }
    }

    /// The position at a grid point, or `None` where a coordinate lies outside `-1 ..= 1`.
    pub fn try_from_grid(v: GridVector) -> (r: Option<StickPosition>)
        ensures
            v.on_stick() ==> r == Some(position_at(v.x as int, v.y as int)),
            !v.on_stick() ==> r.is_none(),
    {
        if -1 <= v.x && v.x <= 1 && -1 <= v.y && v.y <= 1 {
            Some(StickPosition::from_grid(v))
        } else {
            None
        }
    }

    /// The position after a directional pad button changed: `value` is `1`
    /// for a button that went down and `0` for one that came up, and `delta_x`
    /// or `delta_y` says which way the button points. The axis of the button
    /// takes the product, the other axis stays. `None` where the product
    /// leaves the stick.
    pub fn dpad_position(self, value: i32, delta_x: Option<i32>, delta_y: Option<i32>) -> (r:
        Option<StickPosition>)
        ensures
            r == dpad_target(self, value as int, delta_x, delta_y),
    {
        let current = self.to_grid();
        let x = match delta_x {
            Some(dx) => match dx.checked_mul(value) {
                Some(product) => product,
                None => {
                    return None;
                },
            },
            None => current.x,
        };
        let y = match delta_y {
            Some(dy) => match dy.checked_mul(value) {
                Some(product) => product,
                None => {
                    return None;
                },
            },
            None => current.y,
        };
        StickPosition::try_from_grid(GridVector { x, y })
    }

    /// The position of a key of the numeric pad, for keys `1 ..= 9`.
    pub fn from_numpad(key: i32) -> (p: StickPosition)
        requires
            1 <= key <= 9,
        ensures
            p == numpad_position(key as int),
    {
        match key {
            1 => StickPosition::SW,
            2 => StickPosition::S,
            3 => StickPosition::SE,
            4 => StickPosition::W,
            5 => StickPosition::Neutral,
            6 => StickPosition::E,
            7 => StickPosition::NW,
            8 => StickPosition::N,
            _ => StickPosition::NE,
        }
    }

    /// The key of the numeric pad that stands for the position.
    pub fn to_numpad(self) -> (key: i32)
        ensures
            1 <= key <= 9,
            key == 3 * (self.row() + 1) + self.column() + 2,
            numpad_position(key as int) == self,
    {
        match self {
            StickPosition::SW => 1,
            StickPosition::S => 2,
            StickPosition::SE => 3,
            StickPosition::W => 4,
            StickPosition::Neutral => 5,
            StickPosition::E => 6,
            StickPosition::NW => 7,
            StickPosition::N => 8,
            StickPosition::NE => 9,
        }
    }

    /// Mirrors the position: east and west change places, the rest stays.
    pub fn flip(self) -> (p: StickPosition)
        ensures
            p == self.flipped(),
            p.column() == -self.column(),
            p.row() == self.row(),
    {
        let v = self.to_grid();
        StickPosition::from_grid(GridVector { x: -v.x, y: v.y })
    }
}

impl Default for StickPosition {
    fn default() -> (p: StickPosition)
        ensures
            p == StickPosition::Neutral,
    {
        StickPosition::Neutral
    }
}

/// Mirroring twice gives the position back.
pub proof fn lemma_flip_involution(p: StickPosition)
    ensures
        p.flipped().flipped() == p,
{
}

/// A position is the one found at its own grid point.
pub proof fn lemma_grid_round_trip(p: StickPosition)
    ensures
        position_at(p.column(), p.row()) == p,
        -1 <= p.column() <= 1,
        -1 <= p.row() <= 1,
{
}

/// A grid point on the stick is the grid point of the position found there.
pub proof fn lemma_grid_round_trip_back(x: int, y: int)
    requires
        -1 <= x <= 1,
        -1 <= y <= 1,
    ensures
        position_at(x, y).column() == x,
        position_at(x, y).row() == y,
{
}

} // verus!
