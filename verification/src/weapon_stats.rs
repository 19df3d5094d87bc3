//! What is counted for one weapon.

use crate::tally::Tally;
use vstd::prelude::*;

verus! {

/// The counts of one weapon as unbounded numbers.
pub ghost struct StatsModel {
    /// Every kill with the weapon.
    pub total_kills: nat,
    /// Those kills of which the distance is known.
    pub kills_with_valid_distance: nat,
    /// The sum of the known distances, in millionths of a map unit.
    pub distance_sum: nat,
}

/// The kills of one weapon: how many there were, of how many the distance between killer
/// and victim is known, and the sum of those distances in millionths of a map unit.
#[derive(Clone, Copy, Debug)]
pub struct WeaponStats {
    death_distance: u128,
    number_of_kills_with_distance: u64,
    total_kills: u64,
}

impl View for WeaponStats {
    type V = StatsModel;

    closed spec fn view(&self) -> StatsModel {
        StatsModel {
            total_kills: self.total_kills as nat,
            kills_with_valid_distance: self.number_of_kills_with_distance as nat,
            distance_sum: self.death_distance as nat,
        }
    }
}

impl WeaponStats {
    /// Statistics with the given distance sum, number of kills with a known distance and
    /// number of kills in all.
    pub fn new(
        death_distance: u128,
        number_of_kills_with_distance: u64,
        total_kills: u64,
    ) -> (stats: Self)
        ensures
            stats@ == (StatsModel {
                total_kills: total_kills as nat,
                kills_with_valid_distance: number_of_kills_with_distance as nat,
                distance_sum: death_distance as nat,
            }),
    {
        WeaponStats { death_distance, number_of_kills_with_distance, total_kills }
    }

    /// Adds a distance to the sum.
    pub fn set_death_distance(&mut self, death_distance: u128)
        requires
            old(self)@.distance_sum + death_distance <= u128::MAX,
        ensures
            final(self)@ == sum_of(
                old(self)@,
                StatsModel {
                    total_kills: 0,
                    kills_with_valid_distance: 0,
                    distance_sum: death_distance as nat,
                },
            ),
    {
        self.death_distance = self.death_distance + death_distance;
    }

    /// Adds to the number of kills with a known distance.
    pub fn set_number_of_kills_with_valid_distance(&mut self, number_of_kills: u64)
        requires
            old(self)@.kills_with_valid_distance + number_of_kills <= u64::MAX,
        ensures
            final(self)@ == sum_of(
                old(self)@,
                StatsModel {
                    total_kills: 0,
                    kills_with_valid_distance: number_of_kills as nat,
                    distance_sum: 0,
                },
            ),
    {
        self.number_of_kills_with_distance = self.number_of_kills_with_distance + number_of_kills;
    }

    /// Adds to the number of kills.
    pub fn set_total_kills_caused_by_weapon(&mut self, number_of_kills: u64)
        requires
            old(self)@.total_kills + number_of_kills <= u64::MAX,
        ensures
            final(self)@ == sum_of(
                old(self)@,
                StatsModel {
                    total_kills: number_of_kills as nat,
                    kills_with_valid_distance: 0,
                    distance_sum: 0,
                },
            ),
    {
        self.total_kills = self.total_kills + number_of_kills;
    }

    /// The sum of the known distances.
    pub fn get_death_distance(&self) -> (sum: u128)
        ensures
            sum == self@.distance_sum,
    {
        self.death_distance
    }

    /// The number of kills with a known distance.
    pub fn get_number_of_kills_with_valid_distance(&self) -> (kills: u64)
        ensures
            kills == self@.kills_with_valid_distance,
    {
        self.number_of_kills_with_distance
    }

    /// The number of kills.
    pub fn get_total_kills_caused_by_weapon(&self) -> (kills: u64)
        ensures
            kills == self@.total_kills,
    {
        self.total_kills
    }
}

/// Counts that can belong to one weapon: the kills with a known distance are some of the
/// kills, and each of them adds a distance that fits a `u64`.
pub open spec fn consistent(stats: StatsModel) -> bool {
    &&& stats.total_kills <= u64::MAX
    &&& stats.kills_with_valid_distance <= stats.total_kills
    &&& stats.distance_sum <= stats.kills_with_valid_distance * u64::MAX
}

/// The field-wise sum of two weapons' counts.
pub open spec fn sum_of(a: StatsModel, b: StatsModel) -> StatsModel {
    StatsModel {
        total_kills: a.total_kills + b.total_kills,
        kills_with_valid_distance: a.kills_with_valid_distance + b.kills_with_valid_distance,
        distance_sum: a.distance_sum + b.distance_sum,
    }
}

impl Tally for WeaponStats {
    type Model = StatsModel;

    open spec fn model(&self) -> StatsModel {
        self@
    }

    open spec fn wf(&self) -> bool {
        consistent(self@)
    }

    open spec fn weight(&self) -> nat {
        self@.total_kills
    }

    open spec fn join(a: StatsModel, b: StatsModel) -> StatsModel {
        sum_of(a, b)
    }

    open spec fn counted(m: StatsModel) -> nat {
        m.total_kills
    }

    proof fn lemma_weight_counted(&self) {
    }

    proof fn lemma_join_commutes(a: StatsModel, b: StatsModel) {
    }

    proof fn lemma_join_associates(a: StatsModel, b: StatsModel, c: StatsModel) {
    }

    fn count(&self) -> u64 {
        self.total_kills
    }

    fn absorb(&mut self, other: Self) {
        proof {
            let a = self@;
            let b = other@;
            assert((a.kills_with_valid_distance + b.kills_with_valid_distance) * u64::MAX
                == a.kills_with_valid_distance * u64::MAX + b.kills_with_valid_distance
                * u64::MAX) by (nonlinear_arith);
            assert((a.kills_with_valid_distance + b.kills_with_valid_distance) * u64::MAX
                <= u64::MAX * u64::MAX) by (nonlinear_arith)
                requires
                    a.kills_with_valid_distance + b.kills_with_valid_distance <= u64::MAX,
            ;
        }
        self.death_distance = self.death_distance + other.death_distance;
        self.number_of_kills_with_distance = self.number_of_kills_with_distance
            + other.number_of_kills_with_distance;
        self.total_kills = self.total_kills + other.total_kills;
    }
}

} // verus!
