//! What is left to chance: which script an actor speaks from, what the actor
//! is called, and how it stands to the player at first.

use crate::npc::NpcState;
use rand::seq::IteratorRandom;
use rand::Rng;
use vstd::prelude::*;

verus! {

/// Picks one of `items` with `IteratorRandom::choose_stable` of the rand
/// crate, fed by the generator of the thread (`rand::rng`). Of the outcome
/// the contract claims only what holds of every draw: nothing is picked from
/// an empty slice, and what is picked from another is one of its items.
#[verifier::external_body]
pub(crate) fn pick<T>(items: &[T]) -> (r: Option<&T>)
    ensures
        r is None <==> items@.len() == 0,
        r matches Some(item) ==> items@.contains(*item),
{
    items.iter().choose_stable(&mut rand::rng())
}

/// Draws a number from 0 to `bound` with `Rng::random_range` of the rand
/// crate, on the generator of the thread (`rand::rng`). The contract claims
/// only that the number lies in that range.
#[verifier::external_body]
pub(crate) fn draw_up_to(bound: u8) -> (r: u8)
    ensures
        r <= bound,
{
    rand::rng().random_range(0..=bound)
}

/// The state with the given index: 0 is a stranger, 1 an actor that waits,
/// 2 a follower.
pub open spec fn state_at(index: int) -> NpcState {
    if index == 0 {
        NpcState::Stranger
    } else if index == 1 {
        NpcState::Waiting
    } else {
        NpcState::Follower
    }
}

impl NpcState {
    /// The state with the given index.
    pub fn from_index(index: u8) -> (state: NpcState)
        requires
            index <= 2,
        ensures
            state == state_at(index as int),
    {
        if index == 0 {
            NpcState::Stranger
        } else if index == 1 {
            NpcState::Waiting
        } else {
            NpcState::Follower
        }
    }

    /// A state drawn at random.
    pub fn random() -> NpcState {
        NpcState::from_index(draw_up_to(2))
    }
}

/// The names that an actor met by chance may have.
pub const NAMES: [&'static str; 6] = ["Alice", "Bob", "Charlie", "Dave", "Erin", "Frank"];

/// Picks at random the script that an actor speaks from: one of `files`, or
/// none where there is no file.
pub fn choose_script(files: &Vec<String>) -> (r: Option<&String>)
    ensures
        r is None <==> files@.len() == 0,
        r matches Some(file) ==> files@.contains(*file),
{
    pick(files.as_slice())
}

/// Picks at random the name of an actor.
pub fn choose_name() -> (r: &'static str)
    ensures
        NAMES@.contains(r),
{
    let names = NAMES;
    match pick(names.as_slice()) {
        Some(name) => *name,
        None => vstd::pervasive::unreached(),
    }
}

} // verus!
