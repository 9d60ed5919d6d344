//! Victory detection: a two-state machine that watches per-team living
//! counts. It waits until it has seen at least one living unit (so the
//! empty gap between round setup and spawning cannot yield a verdict), and
//! only then declares a winner once a side is wiped out.

use vstd::prelude::*;
use crate::team::Team;
use crate::units::{count_living, living_units, Unit};

verus! {

/// How a round ended.
#[derive(Clone, Copy, Debug, PartialEq, Eq, Structural)]
pub enum RoundOutcome {
    PlayerWon,
    PlayerDefeated,
}

/// One observation step of the detector: from the engagement flag and the
/// living counts to the next flag and the verdict, if any.
///
/// Waiting (not engaged): no verdict ever; engage once any living unit is
/// seen. Engaged: both sides alive keeps waiting for a verdict; the Player
/// side alive with the Enemy side empty wins; the Player side empty loses.
/// A verdict returns the machine to Waiting.
pub open spec fn detector_step(engaged: bool, player: nat, enemy: nat) -> (
    bool,
    Option<RoundOutcome>,
) {
    if !engaged {
        (player + enemy > 0, None)
    } else if player >= 1 && enemy >= 1 {
        (true, None)
    } else if player >= 1 {
        (false, Some(RoundOutcome::PlayerWon))
    } else {
        (false, Some(RoundOutcome::PlayerDefeated))
    }
}

/// The engagement flag after feeding a whole sequence of observations.
pub open spec fn detector_engaged_after(init: bool, obs: Seq<(nat, nat)>) -> bool
    decreases obs.len(),
{
    if obs.len() == 0 {
        init
    } else {
        detector_step(
            detector_engaged_after(init, obs.drop_last()),
            obs.last().0,
            obs.last().1,
        ).0
    }
}

/// An engaged detector has seen a living unit: if the machine started in
/// Waiting and ends engaged, some observation held at least one living
/// unit.
pub proof fn lemma_engaged_saw_life(obs: Seq<(nat, nat)>)
    requires
        detector_engaged_after(false, obs),
    ensures
        exists|j: int| 0 <= j < obs.len() && (obs[j].0 + obs[j].1) > 0,
    decreases obs.len(),
{
    let last = obs.last();
    if detector_engaged_after(false, obs.drop_last()) {
        lemma_engaged_saw_life(obs.drop_last());
        let j = choose|j: int|
            0 <= j < obs.drop_last().len() && (obs.drop_last()[j].0 + obs.drop_last()[j].1) > 0;
        assert(obs[j] == obs.drop_last()[j]);
        assert((obs[j].0 + obs[j].1) > 0);
    } else {
        assert(last.0 + last.1 > 0);
        assert(obs[obs.len() - 1] == last);
    }
}

/// Starting from Waiting, a winning verdict at step `k` means the Enemy
/// side was empty and the Player side was not at step `k`, and some earlier
/// step had a living unit on the field: no verdict can come out of the
/// Waiting state, with or without units.
pub proof fn lemma_victory_needs_engagement(obs: Seq<(nat, nat)>, k: int)
    requires
        0 <= k < obs.len(),
        detector_step(detector_engaged_after(false, obs.take(k)), obs[k].0, obs[k].1).1 == Some(
            RoundOutcome::PlayerWon,
        ),
    ensures
        obs[k].0 >= 1 && obs[k].1 == 0,
        exists|j: int| 0 <= j < k && (obs[j].0 + obs[j].1) > 0,
{
    lemma_engaged_saw_life(obs.take(k));
    let j = choose|j: int|
        0 <= j < obs.take(k).len() && (obs.take(k)[j].0 + obs.take(k)[j].1) > 0;
    assert(obs[j] == obs.take(k)[j]);
    assert(0 <= j < k && (obs[j].0 + obs[j].1) > 0);
}

/// Watches the battle's population and declares round outcomes.
pub struct VictoryDetector {
    /// False while Waiting (no battle observed yet); true once Engaged.
    pub engaged: bool,
}

impl VictoryDetector {
    /// A detector in the Waiting state.
    pub fn new() -> (r: VictoryDetector)
        ensures
            !r.engaged,
    {
        VictoryDetector { engaged: false }
    }

    /// Feeds one observation of living counts to the detector and returns
    /// the verdict, if this step produced one.
    pub fn observe(&mut self, player_alive: usize, enemy_alive: usize) -> (r: Option<RoundOutcome>)
        ensures
            (final(self).engaged, r) == detector_step(
                old(self).engaged,
                player_alive as nat,
                enemy_alive as nat,
            ),
            !old(self).engaged ==> r is None,
    {
        if !self.engaged {
            if player_alive > 0 || enemy_alive > 0 {
                self.engaged = true;
            }
            return None;
        }

        if player_alive >= 1 && enemy_alive >= 1 {
            return None;
        }

        self.engaged = false;
        if player_alive >= 1 {
            Some(RoundOutcome::PlayerWon)
        } else {
            Some(RoundOutcome::PlayerDefeated)
        }
    }

    /// Counts each team's living units and feeds them to the detector.
    pub fn detect_victory(&mut self, units: &Vec<Unit>) -> (r: Option<RoundOutcome>)
        ensures
            (final(self).engaged, r) == detector_step(
                old(self).engaged,
                count_living(units@, Team::Player) as nat,
                count_living(units@, Team::Enemy) as nat,
            ),
            !old(self).engaged ==> r is None,
    {
        proof {
            crate::units::lemma_count_living_members(units@, Team::Player, units@.len() as int);
            crate::units::lemma_count_living_members(units@, Team::Enemy, units@.len() as int);
        }
        let player_alive = living_units(units, Team::Player);
        let enemy_alive = living_units(units, Team::Enemy);
        self.observe(player_alive, enemy_alive)
    }
}

} // verus!
