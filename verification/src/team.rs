//! The two sides of a battle. A team tag partitions units, slots, squads
//! and modifiers; it is never mutated once assigned.

use vstd::prelude::*;

verus! {

/// The side a unit, squad or slot belongs to.
#[derive(Clone, Copy, Debug, PartialEq, Eq, Structural)]
pub enum Team {
    Player,
    Enemy,
}

impl Default for Team {
    fn default() -> (r: Self)
        ensures
            r == Team::Player,
    {
        Team::Player
    }
}

impl Team {
    /// The opposing side.
    pub fn opponent(&self) -> (r: Team)
        ensures
            r == self.opponent_spec(),
    {
        match self {
            Team::Player => Team::Enemy,
            Team::Enemy => Team::Player,
        }
    }

    pub open spec fn opponent_spec(self) -> Team {
        match self {
            Team::Player => Team::Enemy,
            Team::Enemy => Team::Player,
        }
    }
}

} // verus!
