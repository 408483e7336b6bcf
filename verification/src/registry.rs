//! The motions that a parser listens for, by the move that each stands for.

use vstd::prelude::*;
use crate::motion_input::{MotionInput, MotionView};
use crate::move_id::MoveId;

verus! {

/// The registered motions, kept in a hash map of `bevy::utils`. That a move
/// stands for one motion rests on the derived `Eq` and `Hash` of `MoveId`.
#[verifier::external_body]
#[derive(Debug)]
pub struct Registry {
    inputs: bevy::utils::HashMap<MoveId, MotionInput>,
}

/// The motions that a `Registry` holds, by their moves.
pub uninterp spec fn registered_motions(r: Registry) -> Map<MoveId, MotionView>;

/// The registry that holds no motion.
pub open spec fn no_motions() -> Map<MoveId, MotionView> {
    Map::empty()
}

/// `HashMap::default` of hashbrown, through `bevy::utils`: a map that holds nothing.
#[verifier::external_body]
fn hash_map_new() -> (r: Registry)
    ensures
        registered_motions(r) == no_motions(),
{
    Registry { inputs: bevy::utils::HashMap::default() }
}

/// `HashMap::insert` of hashbrown: afterwards the move stands for the motion
/// given, whatever it stood for before, and every other move for what it did.
#[verifier::external_body]
fn hash_map_insert(r: &mut Registry, id: MoveId, input: MotionInput)
    ensures
        registered_motions(*final(r)) == registered_motions(*old(r)).insert(id, input@),
{
    r.inputs.insert(id, input);
}

/// `HashMap::remove` of hashbrown: hands out the motion that the move stood
/// for, if it stood for one, and afterwards the move stands for none.
#[verifier::external_body]
fn hash_map_remove(r: &mut Registry, id: MoveId) -> (taken: Option<MotionInput>)
    ensures
        registered_motions(*final(r)) == registered_motions(*old(r)).remove(id),
        taken.is_some() == registered_motions(*old(r)).dom().contains(id),
        taken matches Some(input) ==> input@ == registered_motions(*old(r))[id],
{
    r.inputs.remove(&id)
}

/// `HashMap::keys` of hashbrown, collected: every registered move once, in an
/// order that nothing is said of.
#[verifier::external_body]
fn hash_map_keys(r: &Registry) -> (ids: Vec<MoveId>)
    ensures
        ids@.no_duplicates(),
        forall|id: MoveId| ids@.contains(id) <==> registered_motions(*r).dom().contains(id),
{
    r.inputs.keys().copied().collect()
}

impl View for Registry {
    type V = Map<MoveId, MotionView>;

    open spec fn view(&self) -> Map<MoveId, MotionView> {
        registered_motions(*self)
    }
}

impl Registry {
    /// A registry without motions.
    pub fn new() -> (r: Registry)
        ensures
            r@ == no_motions(),
    {
        hash_map_new()
    }

    /// Lets the move stand for the motion, in place of any that it stood for.
    pub fn insert(&mut self, id: MoveId, input: MotionInput)
        ensures
            final(self)@ == old(self)@.insert(id, input@),
    {
        hash_map_insert(self, id, input)
    }

    /// Takes out the motion that the move stands for, if it stands for one.
    pub fn remove(&mut self, id: MoveId) -> (taken: Option<MotionInput>)
        ensures
            final(self)@ == old(self)@.remove(id),
            taken.is_some() == old(self)@.dom().contains(id),
            taken matches Some(input) ==> input@ == old(self)@[id],
    {
        hash_map_remove(self, id)
    }

    /// The registered moves, each once, in no particular order.
    pub fn ids(&self) -> (ids: Vec<MoveId>)
        ensures
            ids@.no_duplicates(),
            forall|id: MoveId| ids@.contains(id) <==> self@.dom().contains(id),
    {
        hash_map_keys(self)
    }
}

} // verus!
