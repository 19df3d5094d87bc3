//! The ranked summaries: the weapons with the most kills and the players with the most
//! kills, each with the shares that describe it.
//!
//! Shares and averages have two decimal places. They are kept as whole numbers of
//! hundredths: `1234` stands for `12.34`. A value that falls between two hundredths goes to
//! the nearer one, and one exactly half way goes up.

use crate::csvs_processor::{NumberOfDeathsAndDistances, PlayersWeapons};
use crate::parallel::par_map;
use crate::ranking::{at_most, is_top, lemma_top_unique, picked};
use crate::table::{counted_in, kills_by_name, lemma_table_of_view, Table};
use crate::tally::{lemma_weight_of_entry, Tally};
use crate::weapon_stats::{StatsModel, WeaponStats};
use vstd::arithmetic::div_mod::lemma_fundamental_div_mod_converse;
use vstd::prelude::*;
use vstd::slice::slice_to_vec;

verus! {

/// How many players are ranked.
pub const TOP_PLAYERS: usize = 10;

/// How many weapons are listed for a ranked player.
pub const TOP_WEAPONS: usize = 3;

/// How many weapons are ranked.
pub const RANKED_WEAPONS: usize = 10;

/// The hundredths of a percent that make up the whole.
pub const WHOLE: u64 = 10_000;

/// The millionths of a map unit in a hundredth of a map unit.
pub const MILLIONTHS_PER_HUNDREDTH: u64 = 10_000;

/// A ranked weapon.
#[derive(Debug)]
pub struct RankedWeaponEntry {
    /// The weapon's name.
    pub name: Vec<u8>,
    /// The weapon's share of all kills, in hundredths of a percent.
    pub deaths_percentage: u64,
    /// The mean distance of its kills with a known distance, in hundredths of a map unit.
    /// There is none where no kill of the weapon has a known distance.
    pub average_distance: Option<u64>,
}

/// One weapon's share of a player's kills.
#[derive(Debug)]
pub struct WeaponShare {
    /// The weapon's name.
    pub name: Vec<u8>,
    /// The share of the player's kills made with it, in hundredths of a percent.
    pub percentage: u64,
}

/// A ranked player.
#[derive(Debug)]
pub struct RankedPlayerEntry {
    /// The player's name.
    pub name: Vec<u8>,
    /// The player's kills, over all weapons.
    pub deaths: u64,
    /// The player's best weapons, best first, each with its share of the player's kills.
    pub weapons_percentage: Vec<WeaponShare>,
}

/// `n / d` as the nearest whole number, a half going up; `0` where `d` is `0`.
pub open spec fn rounded(n: nat, d: nat) -> nat {
    if d == 0 {
        0
    } else {
        (2 * n + d) / (2 * d)
    }
}

/// The share of `part` in `total`, in hundredths of a percent; `0` where the total is `0`.
pub open spec fn percentage(part: nat, total: nat) -> nat {
    rounded(part * WHOLE as nat, total)
}

/// The mean distance of the kills with a known distance, in hundredths of a map unit, and
/// none where there is no such kill.
pub open spec fn average_distance(stats: StatsModel) -> Option<nat> {
    if stats.kills_with_valid_distance == 0 {
        None
    } else {
        Some(
            rounded(
                stats.distance_sum,
                stats.kills_with_valid_distance * MILLIONTHS_PER_HUNDREDTH as nat,
            ),
        )
    }
}

/// The entry describes a weapon with the counts `stats`, among `total` kills.
pub open spec fn describes_weapon(entry: RankedWeaponEntry, stats: StatsModel, total: nat) -> bool {
    &&& entry.deaths_percentage == percentage(stats.total_kills, total)
    &&& match entry.average_distance {
        Some(mean) => average_distance(stats) == Some(mean as nat),
        None => average_distance(stats).is_none(),
    }
}

/// The shares are those of a player's best weapons, at most three, best first: each is the
/// share of the weapon's kills in the `deaths` of the player.
pub open spec fn describes_shares(shares: Seq<WeaponShare>, counts: Map<Seq<u8>, nat>, deaths: nat) -> bool {
    &&& is_top(counts, TOP_WEAPONS as nat, share_names(shares))
    &&& forall|i: int|
        0 <= i < shares.len() ==> (#[trigger] shares[i]).percentage == percentage(
            counts[shares[i].name@],
            deaths,
        )
}

/// The entry describes a player with the kills by weapon `counts`: the number of kills over
/// all weapons, and the shares of the player's best weapons.
pub open spec fn describes_player(entry: RankedPlayerEntry, counts: Map<Seq<u8>, nat>) -> bool {
    &&& entry.deaths == counted_in::<u64>(counts)
    &&& entry.weapons_percentage@.len() <= TOP_WEAPONS
    &&& describes_shares(entry.weapons_percentage@, counts, counted_in::<u64>(counts))
}

/// `top` are the ranked weapons of `weapons`: the best ten by kills, best first, each
/// described by its share of the kills of all weapons and by its mean distance.
pub open spec fn ranked_weapons(weapons: Map<Seq<u8>, StatsModel>, top: Seq<RankedWeaponEntry>) -> bool {
    &&& is_top(kills_by_name::<WeaponStats>(weapons), RANKED_WEAPONS as nat, weapon_names(top))
    &&& forall|i: int|
        0 <= i < top.len() ==> describes_weapon(
            #[trigger] top[i],
            weapons[top[i].name@],
            counted_in::<WeaponStats>(weapons),
        )
}

/// `top` are the ranked players of `players`: the best ten by kills over all weapons, best
/// first, each described by that number and by the shares of the best three weapons.
pub open spec fn ranked_players(
    players: Map<Seq<u8>, Map<Seq<u8>, nat>>,
    top: Seq<RankedPlayerEntry>,
) -> bool {
    &&& is_top(kills_by_name::<Table<u64>>(players), TOP_PLAYERS as nat, player_names(top))
    &&& forall|i: int| 0 <= i < top.len() ==> describes_player(#[trigger] top[i], players[top[i].name@])
}

/// The ranked weapons are a function of the statistics by weapon: two rankings of the same
/// statistics list the same weapons in the same order with the same numbers.
pub proof fn lemma_ranked_weapons_unique(
    weapons: Map<Seq<u8>, StatsModel>,
    top: Seq<RankedWeaponEntry>,
    other: Seq<RankedWeaponEntry>,
)
    requires
        ranked_weapons(weapons, top),
        ranked_weapons(weapons, other),
    ensures
        top.len() == other.len(),
        forall|i: int|
            0 <= i < top.len() ==> {
                &&& (#[trigger] top[i]).name@ == other[i].name@
                &&& top[i].deaths_percentage == other[i].deaths_percentage
                &&& top[i].average_distance == other[i].average_distance
            },
{
    lemma_top_unique(
        kills_by_name::<WeaponStats>(weapons),
        RANKED_WEAPONS as nat,
        weapon_names(top),
        weapon_names(other),
    );
    assert forall|i: int| 0 <= i < top.len() implies {
        &&& (#[trigger] top[i]).name@ == other[i].name@
        &&& top[i].deaths_percentage == other[i].deaths_percentage
        &&& top[i].average_distance == other[i].average_distance
    } by {
        assert(weapon_names(top)[i] == weapon_names(other)[i]);
        assert(describes_weapon(other[i], weapons[other[i].name@], counted_in::<WeaponStats>(weapons)));
    }
}

/// The shares of a player's best weapons are a function of the player's kills by weapon.
pub proof fn lemma_shares_unique(
    counts: Map<Seq<u8>, nat>,
    deaths: nat,
    shares: Seq<WeaponShare>,
    other: Seq<WeaponShare>,
)
    requires
        describes_shares(shares, counts, deaths),
        describes_shares(other, counts, deaths),
    ensures
        shares.len() == other.len(),
        forall|i: int|
            0 <= i < shares.len() ==> (#[trigger] shares[i]).name@ == other[i].name@
                && shares[i].percentage == other[i].percentage,
{
    lemma_top_unique(counts, TOP_WEAPONS as nat, share_names(shares), share_names(other));
    assert forall|i: int| 0 <= i < shares.len() implies (#[trigger] shares[i]).name@
        == other[i].name@ && shares[i].percentage == other[i].percentage by {
        assert(share_names(shares)[i] == share_names(other)[i]);
        assert(other[i].percentage == percentage(counts[other[i].name@], deaths));
    }
}

/// The ranked players are a function of the kills by player and weapon: two rankings of
/// the same kills list the same players in the same order, with the same number of kills
/// and the same shares of the same weapons.
pub proof fn lemma_ranked_players_unique(
    players: Map<Seq<u8>, Map<Seq<u8>, nat>>,
    top: Seq<RankedPlayerEntry>,
    other: Seq<RankedPlayerEntry>,
)
    requires
        ranked_players(players, top),
        ranked_players(players, other),
    ensures
        top.len() == other.len(),
        forall|i: int|
            0 <= i < top.len() ==> {
                &&& (#[trigger] top[i]).name@ == other[i].name@
                &&& top[i].deaths == other[i].deaths
                &&& top[i].weapons_percentage@.len() == other[i].weapons_percentage@.len()
                &&& forall|j: int|
                    0 <= j < top[i].weapons_percentage@.len() ==> (
                    #[trigger] top[i].weapons_percentage@[j]).name@
                        == other[i].weapons_percentage@[j].name@
                        && top[i].weapons_percentage@[j].percentage
                        == other[i].weapons_percentage@[j].percentage
            },
{
    lemma_top_unique(
        kills_by_name::<Table<u64>>(players),
        TOP_PLAYERS as nat,
        player_names(top),
        player_names(other),
    );
    assert forall|i: int| 0 <= i < top.len() implies {
        &&& (#[trigger] top[i]).name@ == other[i].name@
        &&& top[i].deaths == other[i].deaths
        &&& top[i].weapons_percentage@.len() == other[i].weapons_percentage@.len()
        &&& forall|j: int|
            0 <= j < top[i].weapons_percentage@.len() ==> (
            #[trigger] top[i].weapons_percentage@[j]).name@ == other[i].weapons_percentage@[j].name@
                && top[i].weapons_percentage@[j].percentage
                == other[i].weapons_percentage@[j].percentage
    } by {
        assert(player_names(top)[i] == player_names(other)[i]);
        let counts = players[top[i].name@];
        assert(describes_player(other[i], players[other[i].name@]));
        lemma_shares_unique(
            counts,
            counted_in::<u64>(counts),
            top[i].weapons_percentage@,
            other[i].weapons_percentage@,
        );
    }
}

/// The names of a list of ranked weapons.
pub open spec fn weapon_names(entries: Seq<RankedWeaponEntry>) -> Seq<Seq<u8>> {
    Seq::new(entries.len(), |i: int| entries[i].name@)
}

/// The names of a list of shares.
pub open spec fn share_names(shares: Seq<WeaponShare>) -> Seq<Seq<u8>> {
    Seq::new(shares.len(), |i: int| shares[i].name@)
}

/// The names of a list of ranked players.
pub open spec fn player_names(entries: Seq<RankedPlayerEntry>) -> Seq<Seq<u8>> {
    Seq::new(entries.len(), |i: int| entries[i].name@)
}

/// `n / d` as the nearest whole number, a half going up.
fn round_divide(n: u128, d: u128) -> (q: u128)
    requires
        0 < d,
        2 * d <= u128::MAX,
    ensures
        q == rounded(n as nat, d as nat),
{
    let whole = n / d;
    let rest = n % d;
    proof {
        assert(n == whole * d + rest) by {
            vstd::arithmetic::div_mod::lemma_fundamental_div_mod(n as int, d as int);
            assert(d * whole == whole * d) by (nonlinear_arith);
        }
        if 2 * rest >= d {
            assert(2 * n + d == (whole + 1) * (2 * d) + (2 * rest - d)) by (nonlinear_arith)
                requires
                    n == whole * d + rest,
            ;
            lemma_fundamental_div_mod_converse(2 * n + d, 2 * d, whole + 1, 2 * rest - d);
            assert(whole + 1 <= u128::MAX) by (nonlinear_arith)
                requires
                    n == whole * d + rest,
                    2 * rest >= d,
                    rest < d,
                    n <= u128::MAX,
                    d > 0,
            ;
        } else {
            assert(2 * n + d == whole * (2 * d) + (2 * rest + d)) by (nonlinear_arith)
                requires
                    n == whole * d + rest,
            ;
            lemma_fundamental_div_mod_converse(2 * n + d, 2 * d, whole as int, 2 * rest + d);
        }
    }
    if 2 * rest >= d {
        whole + 1
    } else {
        whole
    }
}

/// The share of `part` in `total`, in hundredths of a percent. Nothing has a share in an
/// empty total: the share is `0` there.
pub fn calculate_percentage(part: u64, total: u64) -> (share: u64)
    requires
        part <= total,
    ensures
        share == percentage(part as nat, total as nat),
        share <= WHOLE,
{
    if total == 0 {
        0
    } else {
        assert(part * WHOLE <= u64::MAX * WHOLE) by (nonlinear_arith)
            requires
                part <= u64::MAX,
        ;
        let scaled: u128 = part as u128 * WHOLE as u128;
        let share = round_divide(scaled, total as u128);
        proof {
            let n = part as int * WHOLE as int;
            let d = total as int;
            assert((2 * n + d) / (2 * d) <= WHOLE) by {
                assert(2 * n + d <= WHOLE * (2 * d) + d) by (nonlinear_arith)
                    requires
                        n == part * WHOLE,
                        part <= total,
                        d == total,
                ;
                vstd::arithmetic::div_mod::lemma_div_is_ordered(
                    2 * n + d,
                    WHOLE * (2 * d) + d,
                    2 * d,
                );
                lemma_fundamental_div_mod_converse(WHOLE * (2 * d) + d, 2 * d, WHOLE as int, d);
            }
        }
        share as u64
    }
}

/// The mean distance of a weapon's kills with a known distance, in hundredths of a map
/// unit. A weapon without such a kill has no mean distance.
pub fn calculate_average_distance(weapon_stats: &WeaponStats) -> (mean: Option<u64>)
    requires
        weapon_stats.wf(),
    ensures
        match mean {
            Some(distance) => average_distance(weapon_stats@) == Some(distance as nat),
            None => average_distance(weapon_stats@).is_none(),
        },
{
    let kills = weapon_stats.get_number_of_kills_with_valid_distance();
    if kills == 0 {
        None
    } else {
        let sum = weapon_stats.get_death_distance();
        assert(kills * MILLIONTHS_PER_HUNDREDTH <= u64::MAX * MILLIONTHS_PER_HUNDREDTH)
            by (nonlinear_arith)
            requires
                kills <= u64::MAX,
        ;
        let per_hundredth: u128 = kills as u128 * MILLIONTHS_PER_HUNDREDTH as u128;
        let mean = round_divide(sum, per_hundredth);
        proof {
            let n = sum as int;
            let d = per_hundredth as int;
            let most = u64::MAX as int;
            assert(n <= kills * most);
            assert((2 * n + d) / (2 * d) <= most) by {
                assert(kills * most <= most * d) by (nonlinear_arith)
                    requires
                        d == kills * 10_000,
                        kills > 0,
                        most >= 0,
                ;
                assert(2 * n + d <= most * (2 * d) + d) by (nonlinear_arith)
                    requires
                        n <= most * d,
                ;
                vstd::arithmetic::div_mod::lemma_div_is_ordered(
                    2 * n + d,
                    most * (2 * d) + d,
                    2 * d,
                );
                lemma_fundamental_div_mod_converse(most * (2 * d) + d, 2 * d, most, d);
            }
        }
        Some(mean as u64)
    }
}

/// The kills of all weapons together.
pub fn calculate_total_deaths(weapons: &NumberOfDeathsAndDistances) -> (total: u64)
    requires
        weapons.wf(),
    ensures
        total == counted_in::<WeaponStats>(weapons@),
{
    proof {
        weapons.lemma_weight_counted();
    }
    weapons.total()
}

/// The positions of the weapons with the most kills, at most `limit` of them, best first.
pub fn sort_weapons_by_kills(weapons: &NumberOfDeathsAndDistances, limit: usize) -> (positions: Vec<
    usize,
>)
    requires
        weapons.wf(),
    ensures
        positions.len() == at_most(limit, weapons@.dom().len()),
        forall|a: int| 0 <= a < positions.len() ==> #[trigger] positions[a] < weapons.names().len(),
        is_top(kills_by_name::<WeaponStats>(weapons@), limit as nat, picked(weapons.names(), positions@)),
{
    weapons.ranking(limit)
}

/// The positions of the players with the most kills, at most `limit` of them, best first.
pub fn sort_players_by_kills(player_kills: &PlayersWeapons, limit: usize) -> (positions: Vec<usize>)
    requires
        player_kills.wf(),
    ensures
        positions.len() == at_most(limit, player_kills@.dom().len()),
        forall|a: int|
            0 <= a < positions.len() ==> #[trigger] positions[a] < player_kills.names().len(),
        is_top(
            kills_by_name::<Table<u64>>(player_kills@),
            limit as nat,
            picked(player_kills.names(), positions@),
        ),
{
    player_kills.ranking(limit)
}

/// The weapon at `at`, as a ranked weapon among `total` kills.
fn describe_weapon(weapons: &NumberOfDeathsAndDistances, at: usize, total: u64) -> (entry:
    RankedWeaponEntry)
    requires
        weapons.wf(),
        at < weapons.names().len(),
        total == weapons.weight(),
    ensures
        entry.name@ == weapons.names()[at as int],
        describes_weapon(entry, weapons.values()[at as int]@, total as nat),
{
    let weapon_stats = weapons.value_at(at);
    proof {
        lemma_weight_of_entry(weapons.values(), at as int);
    }
    RankedWeaponEntry {
        name: slice_to_vec(weapons.name_at(at).as_slice()),
        deaths_percentage: calculate_percentage(
            weapon_stats.get_total_kills_caused_by_weapon(),
            total,
        ),
        average_distance: calculate_average_distance(weapon_stats),
    }
}

/// The weapon at `at`, with its share of a player's kills.
fn describe_share(weapons: &Table<u64>, at: usize, total: u64) -> (share: WeaponShare)
    requires
        weapons.wf(),
        at < weapons.names().len(),
        weapons.weight() <= total,
    ensures
        share.name@ == weapons.names()[at as int],
        share.percentage == percentage(weapons.values()[at as int] as nat, total as nat),
{
    proof {
        lemma_weight_of_entry(weapons.values(), at as int);
    }
    WeaponShare {
        name: slice_to_vec(weapons.name_at(at).as_slice()),
        percentage: calculate_percentage(*weapons.value_at(at), total),
    }
}

/// A player's best weapons, at most three, best first, each with its share of the
/// player's kills.
pub fn calculate_top_weapons_for_player(
    weapons: &Table<u64>,
    total_deaths_caused_by_player: u64,
) -> (shares: Vec<WeaponShare>)
    requires
        weapons.wf(),
        counted_in::<u64>(weapons@) <= total_deaths_caused_by_player,
    ensures
        shares.len() == at_most(TOP_WEAPONS, weapons@.dom().len()),
        describes_shares(shares@, weapons@, total_deaths_caused_by_player as nat),
{
    proof {
        weapons.lemma_weight_counted();
    }
    let positions = weapons.ranking(TOP_WEAPONS);
    let describe = |at: &usize| -> (share: WeaponShare)
        requires
            *at < weapons.names().len(),
        ensures
            share.name@ == weapons.names()[*at as int],
            share.percentage == percentage(
                weapons.values()[*at as int] as nat,
                total_deaths_caused_by_player as nat,
            ),
        { describe_share(weapons, *at, total_deaths_caused_by_player) };
    let shares = par_map(&positions, describe);
    proof {
        lemma_table_of_view(weapons);
        assert(kills_by_name::<u64>(weapons@) =~= weapons@);
        assert(share_names(shares@) =~= picked(weapons.names(), positions@));
    }
    shares
}

/// The player at `at`, as a ranked player.
fn describe_player(player_kills: &PlayersWeapons, at: usize) -> (entry: RankedPlayerEntry)
    requires
        player_kills.wf(),
        at < player_kills.names().len(),
    ensures
        entry.name@ == player_kills.names()[at as int],
        describes_player(entry, player_kills.values()[at as int]@),
{
    let weapons = player_kills.value_at(at);
    proof {
        weapons.lemma_weight_counted();
    }
    let total_deaths_caused_by_player = weapons.total();
    let top_3_weapons = calculate_top_weapons_for_player(weapons, total_deaths_caused_by_player);
    RankedPlayerEntry {
        name: slice_to_vec(player_kills.name_at(at).as_slice()),
        deaths: total_deaths_caused_by_player,
        weapons_percentage: top_3_weapons,
    }
}

/// Ranks weapons and players.
pub struct TopCalculator {}

impl TopCalculator {
    /// A calculator. It keeps nothing between calls.
    pub fn new() -> (calculator: Self) {
        TopCalculator {  }
    }

    /// The weapons with the most kills, at most ten, best first: more kills come first, and
    /// of two weapons with as many kills the one whose name is first in dictionary order.
    /// Each is given with its share of the kills of all weapons and the mean distance of
    /// its kills.
    pub fn calculate_top_weapons(&self, weapons: &NumberOfDeathsAndDistances) -> (top_weapons: Vec<
        RankedWeaponEntry,
    >)
        requires
            weapons.wf(),
        ensures
            top_weapons.len() == at_most(RANKED_WEAPONS, weapons@.dom().len()),
            ranked_weapons(weapons@, top_weapons@),
    {
        let positions = sort_weapons_by_kills(weapons, RANKED_WEAPONS);
        let total_deaths_caused_by_weapons = calculate_total_deaths(weapons);
        proof {
            weapons.lemma_weight_counted();
        }
        let describe = |at: &usize| -> (entry: RankedWeaponEntry)
            requires
                *at < weapons.names().len(),
            ensures
                entry.name@ == weapons.names()[*at as int],
                describes_weapon(
                    entry,
                    weapons.values()[*at as int]@,
                    total_deaths_caused_by_weapons as nat,
                ),
            { describe_weapon(weapons, *at, total_deaths_caused_by_weapons) };
        let top_weapons = par_map(&positions, describe);
        proof {
            lemma_table_of_view(weapons);
            assert(weapon_names(top_weapons@) =~= picked(weapons.names(), positions@));
        }
        top_weapons
    }

    /// The players with the most kills, at most ten, best first: more kills come first, and
    /// of two players with as many kills the one whose name is first in dictionary order.
    /// Each is given with the number of kills and with the best three weapons, ranked the
    /// same way, and their shares of the player's kills.
    pub fn calculate_top_killers(&self, player_kills: &PlayersWeapons) -> (top_killers: Vec<
        RankedPlayerEntry,
    >)
        requires
            player_kills.wf(),
        ensures
            top_killers.len() == at_most(TOP_PLAYERS, player_kills@.dom().len()),
            ranked_players(player_kills@, top_killers@),
    {
        let positions = sort_players_by_kills(player_kills, TOP_PLAYERS);
        let describe = |at: &usize| -> (entry: RankedPlayerEntry)
            requires
                *at < player_kills.names().len(),
            ensures
                entry.name@ == player_kills.names()[*at as int],
                describes_player(entry, player_kills.values()[*at as int]@),
            { describe_player(player_kills, *at) };
        let top_killers = par_map(&positions, describe);
        proof {
            lemma_table_of_view(player_kills);
            assert(player_names(top_killers@) =~= picked(player_kills.names(), positions@));
        }
        top_killers
    }

    /// Both rankings: the players first, then the weapons.
    pub fn calculate_and_sort_results(
        &self,
        weapons: &NumberOfDeathsAndDistances,
        player_kills: &PlayersWeapons,
    ) -> (results: (Vec<RankedPlayerEntry>, Vec<RankedWeaponEntry>))
        requires
            weapons.wf(),
            player_kills.wf(),
        ensures
            results.0.len() == at_most(TOP_PLAYERS, player_kills@.dom().len()),
            ranked_players(player_kills@, results.0@),
            results.1.len() == at_most(RANKED_WEAPONS, weapons@.dom().len()),
            ranked_weapons(weapons@, results.1@),
    {
        let top_killers = self.calculate_top_killers(player_kills);
        let top_weapons = self.calculate_top_weapons(weapons);
        (top_killers, top_weapons)
    }
}

} // verus!
