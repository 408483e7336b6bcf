//! Identifiers of the moves that a motion can be registered for.

use vstd::prelude::*;

verus! {

/// The closed set of moves. A parser maps some of them to motions and reports
/// them by these identifiers.
#[derive(Clone, Copy, Debug, Hash, PartialEq, Eq, PartialOrd, Ord, Structural)]
pub enum MoveId {
    Default,
    // Universal
    DashForward,
    DashBack,
    NeutralSuperJump,
    ForwardSuperJump,
    BackSuperJump,
    NeutralJump,
    ForwardJump,
    BackJump,
    // Equipment
    HandMeDownKen,
    Gunshot,
    Shoot,
    // Test moves
    TestMove,
    SecondTestMove,
    // Dummy moves
    Grab,
    SonicBoom,
    BudgetBoom,
    HeavyHadouken,
    Hadouken,
    AirPunch,
    Low,
    CommandPunch,
    Punch,
}

impl Default for MoveId {
    fn default() -> (id: MoveId)
        ensures
            id == MoveId::Default,
    {
        MoveId::Default
    }
}

} // verus!
