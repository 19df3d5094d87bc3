//! The mergeable accumulator: statistics by weapon and kill counts by player and weapon.
//!
//! Partial aggregates are gathered independently and merged. The merge has an identity, and
//! neither the order nor the grouping of what is merged matters to the result.

use crate::table::{counted_in, join_maps, lemma_join_maps_associates, lemma_join_maps_commutes, lemma_join_maps_empty, lemma_same_view_same_table, Table};
use crate::tally::{models, Tally};
use crate::weapon_stats::{StatsModel, WeaponStats};
use vstd::prelude::*;

verus! {

/// What an aggregate stands for: the counts of each weapon, and for each player the number
/// of kills by weapon.
pub ghost struct AggregateModel {
    pub weapons: Map<Seq<u8>, StatsModel>,
    pub players: Map<Seq<u8>, Map<Seq<u8>, nat>>,
}

/// The aggregate of no lines.
pub open spec fn nothing() -> AggregateModel {
    AggregateModel { weapons: Map::empty(), players: Map::empty() }
}

/// Two aggregates merged: the weapons and players of both, with counts added where a weapon,
/// or a weapon of a player, occurs in both.
pub open spec fn merged(a: AggregateModel, b: AggregateModel) -> AggregateModel {
    AggregateModel {
        weapons: join_maps::<WeaponStats>(a.weapons, b.weapons),
        players: join_maps::<Table<u64>>(a.players, b.players),
    }
}

/// A list of aggregates merged one after the other, from the first on.
pub open spec fn merged_all(items: Seq<AggregateModel>) -> AggregateModel
    decreases items.len(),
{
    if items.len() == 0 {
        nothing()
    } else {
        merged(merged_all(items.drop_last()), items.last())
    }
}

/// The empty aggregate is the identity of the merge, on either side.
pub proof fn lemma_merge_identity(x: AggregateModel)
    ensures
        merged(nothing(), x) == x,
        merged(x, nothing()) == x,
{
    lemma_join_maps_empty::<WeaponStats>(x.weapons);
    lemma_join_maps_empty::<Table<u64>>(x.players);
}

/// The merge is commutative.
pub proof fn lemma_merge_commutes(a: AggregateModel, b: AggregateModel)
    ensures
        merged(a, b) == merged(b, a),
{
    lemma_join_maps_commutes::<WeaponStats>(a.weapons, b.weapons);
    lemma_join_maps_commutes::<Table<u64>>(a.players, b.players);
}

/// The merge is associative.
pub proof fn lemma_merge_associates(a: AggregateModel, b: AggregateModel, c: AggregateModel)
    ensures
        merged(merged(a, b), c) == merged(a, merged(b, c)),
{
    lemma_join_maps_associates::<WeaponStats>(a.weapons, b.weapons, c.weapons);
    lemma_join_maps_associates::<Table<u64>>(a.players, b.players, c.players);
}

/// Merging two lists one after the other is merging what each of them merges to.
pub proof fn lemma_merged_all_concat(first: Seq<AggregateModel>, second: Seq<AggregateModel>)
    ensures
        merged_all(first + second) == merged(merged_all(first), merged_all(second)),
    decreases second.len(),
{
    if second.len() == 0 {
        assert(first + second =~= first);
        lemma_merge_identity(merged_all(first));
    } else {
        let whole = first + second;
        assert(whole.drop_last() =~= first + second.drop_last());
        lemma_merged_all_concat(first, second.drop_last());
        lemma_merge_associates(merged_all(first), merged_all(second.drop_last()), second.last());
    }
}

/// Any one item can be taken out of a list and merged last.
pub proof fn lemma_merged_all_remove(items: Seq<AggregateModel>, i: int)
    requires
        0 <= i < items.len(),
    ensures
        merged_all(items) == merged(merged_all(items.remove(i)), items[i]),
    decreases items.len(),
{
    if i == items.len() - 1 {
        assert(items.remove(i) =~= items.drop_last());
    } else {
        let shorter = items.drop_last();
        lemma_merged_all_remove(shorter, i);
        assert(items.remove(i).drop_last() =~= shorter.remove(i));
        let rest = merged_all(shorter.remove(i));
        lemma_merge_associates(rest, items[i], items.last());
        lemma_merge_commutes(items[i], items.last());
        lemma_merge_associates(rest, items.last(), items[i]);
    }
}

/// The order of a list does not matter to what it merges to.
pub proof fn lemma_merged_all_reordered(items: Seq<AggregateModel>, others: Seq<AggregateModel>)
    requires
        items.to_multiset() == others.to_multiset(),
    ensures
        merged_all(items) == merged_all(others),
    decreases items.len(),
{
    items.to_multiset_ensures();
    others.to_multiset_ensures();
    if items.len() > 0 {
        let last = items.last();
        assert(items.contains(last));
        assert(items.to_multiset().count(last) > 0);
        assert(others.to_multiset().count(last) > 0);
        assert(others.contains(last));
        let i = choose|i: int| 0 <= i < others.len() && others[i] == last;
        let shorter = items.drop_last();
        assert(items.remove(items.len() - 1) =~= shorter);
        assert(shorter.to_multiset() =~= items.to_multiset().remove(last));
        assert(others.remove(i).to_multiset() =~= others.to_multiset().remove(last));
        lemma_merged_all_reordered(shorter, others.remove(i));
        lemma_merged_all_remove(others, i);
    } else {
        assert(others.len() == 0);
    }
}

/// A way to reduce a list of aggregates to one: by merging neighbours, and results of such
/// merges, in any grouping, with the empty aggregate put in wherever one likes.
pub ghost enum Reduction {
    /// The empty aggregate, put in.
    Identity,
    /// One aggregate of the list.
    Item(AggregateModel),
    /// The merge of what two reductions of neighbouring stretches give.
    Pair(Box<Reduction>, Box<Reduction>),
}

impl Reduction {
    /// The aggregates that are reduced, in their order.
    pub open spec fn items(self) -> Seq<AggregateModel>
        decreases self,
    {
        match self {
            Reduction::Identity => Seq::empty(),
            Reduction::Item(item) => seq![item],
            Reduction::Pair(left, right) => left.items() + right.items(),
        }
    }

    /// What the reduction gives.
    pub open spec fn result(self) -> AggregateModel
        decreases self,
    {
        match self {
            Reduction::Identity => nothing(),
            Reduction::Item(item) => item,
            Reduction::Pair(left, right) => merged(left.result(), right.result()),
        }
    }
}

/// Every way to reduce a list gives what merging its items one after the other gives.
pub proof fn lemma_reduction(reduction: Reduction)
    ensures
        reduction.result() == merged_all(reduction.items()),
    decreases reduction,
{
    match reduction {
        Reduction::Identity => {
            assert(reduction.items().len() == 0);
        },
        Reduction::Item(item) => {
            assert(reduction.items().last() == item);
            assert(merged_all(reduction.items().drop_last()) == nothing());
            lemma_merge_identity(item);
        },
        Reduction::Pair(left, right) => {
            lemma_reduction(*left);
            lemma_reduction(*right);
            lemma_merged_all_concat(left.items(), right.items());
        },
    }
}

/// What each group of a list of groups merges to.
pub open spec fn merged_groups(groups: Seq<Seq<AggregateModel>>) -> Seq<AggregateModel> {
    Seq::new(groups.len(), |i: int| merged_all(groups[i]))
}

/// However a collection of aggregates is split into groups, and in whatever order the items
/// stand in them, merging group by group and then merging the results gives what one pass
/// over the whole collection gives.
pub proof fn lemma_grouping_irrelevant(groups: Seq<Seq<AggregateModel>>, all: Seq<AggregateModel>)
    requires
        groups.flatten().to_multiset() == all.to_multiset(),
    ensures
        merged_all(merged_groups(groups)) == merged_all(all),
{
    lemma_merged_groups(groups);
    lemma_merged_all_reordered(groups.flatten(), all);
}

proof fn lemma_merged_groups(groups: Seq<Seq<AggregateModel>>)
    ensures
        merged_all(merged_groups(groups)) == merged_all(groups.flatten()),
    decreases groups.len(),
{
    groups.lemma_flatten_and_flatten_alt_are_equivalent();
    if groups.len() == 0 {
    } else {
        let shorter = groups.drop_last();
        shorter.lemma_flatten_and_flatten_alt_are_equivalent();
        lemma_merged_groups(shorter);
        assert(merged_groups(groups).drop_last() =~= merged_groups(shorter));
        lemma_merged_all_concat(shorter.flatten(), groups.last());
    }
}

/// Statistics gathered from some of the lines.
pub struct PartialAggregate {
    /// The statistics of each weapon.
    pub weapons: Table<WeaponStats>,
    /// For each player the kills by weapon.
    pub players: Table<Table<u64>>,
}

impl View for PartialAggregate {
    type V = AggregateModel;

    open spec fn view(&self) -> AggregateModel {
        AggregateModel { weapons: self.weapons@, players: self.players@ }
    }
}

/// The kills counted in an aggregate, over all weapons.
pub open spec fn kills_in(m: AggregateModel) -> nat {
    counted_in::<WeaponStats>(m.weapons)
}

/// The kills counted for players in an aggregate, over all players and weapons.
pub open spec fn attributed_in(m: AggregateModel) -> nat {
    counted_in::<Table<u64>>(m.players)
}

/// Two aggregates that stand for the same are the same, entry by entry: they list the same
/// weapons with the same counts, and the same players with the same weapons and counts.
pub proof fn lemma_same_view_same_aggregate(first: &PartialAggregate, second: &PartialAggregate)
    requires
        first.wf(),
        second.wf(),
        first@ == second@,
    ensures
        first.weapons.names() == second.weapons.names(),
        models(first.weapons.values()) == models(second.weapons.values()),
        first.players.names() == second.players.names(),
        forall|i: int|
            0 <= i < first.players.names().len() ==> {
                &&& (#[trigger] first.players.values()[i]).names() == second.players.values()[i].names()
                &&& first.players.values()[i].values() == second.players.values()[i].values()
            },
{
    lemma_same_view_same_table(&first.weapons, &second.weapons);
    lemma_same_view_same_table(&first.players, &second.players);
    assert forall|i: int| 0 <= i < first.players.names().len() implies {
        &&& (#[trigger] first.players.values()[i]).names() == second.players.values()[i].names()
        &&& first.players.values()[i].values() == second.players.values()[i].values()
    } by {
        let one = first.players.values()[i];
        let other = second.players.values()[i];
        assert(models(first.players.values())[i] == models(second.players.values())[i]);
        lemma_same_view_same_table(&one, &other);
        assert(one.values() =~= other.values()) by {
            assert forall|j: int| 0 <= j < one.values().len() implies one.values()[j]
                == other.values()[j] by {
                assert(models(one.values())[j] == models(other.values())[j]);
            }
        }
    }
}

/// Adds the statistics of `current_weapon` to those of `acc_weapons`, weapon by weapon.
pub fn add_deaths_and_distances(
    acc_weapons: &mut Table<WeaponStats>,
    current_weapon: Table<WeaponStats>,
)
    requires
        old(acc_weapons).wf(),
        current_weapon.wf(),
        old(acc_weapons).weight() + current_weapon.weight() <= u64::MAX,
    ensures
        final(acc_weapons).wf(),
        final(acc_weapons)@ == join_maps::<WeaponStats>(old(acc_weapons)@, current_weapon@),
        final(acc_weapons).weight() == old(acc_weapons).weight() + current_weapon.weight(),
{
    acc_weapons.absorb(current_weapon);
}

/// Adds the kills of `player_kills` to those of `acc_players_weapons`, player by player and
/// weapon by weapon.
pub fn add_players_weapons(
    acc_players_weapons: &mut Table<Table<u64>>,
    player_kills: Table<Table<u64>>,
)
    requires
        old(acc_players_weapons).wf(),
        player_kills.wf(),
        old(acc_players_weapons).weight() + player_kills.weight() <= u64::MAX,
    ensures
        final(acc_players_weapons).wf(),
        final(acc_players_weapons)@ == join_maps::<Table<u64>>(
            old(acc_players_weapons)@,
            player_kills@,
        ),
        final(acc_players_weapons).weight() == old(acc_players_weapons).weight()
            + player_kills.weight(),
{
    acc_players_weapons.absorb(player_kills);
}

impl PartialAggregate {
    /// Both tables are in order, and no more kills are counted for players than for weapons.
    pub open spec fn wf(&self) -> bool {
        &&& self.weapons.wf()
        &&& self.players.wf()
        &&& self.players.weight() <= self.weapons.weight()
    }

    /// The number of kills counted, over all weapons.
    pub open spec fn kills(&self) -> nat {
        kills_in(self@)
    }

    /// The number of kills counted for players, over all players and weapons.
    pub open spec fn attributed(&self) -> nat {
        attributed_in(self@)
    }

    /// The aggregate of no lines: no weapons and no players.
    pub fn empty() -> (aggregate: Self)
        ensures
            aggregate.wf(),
            aggregate@ == nothing(),
            aggregate.kills() == 0,
            aggregate.attributed() == 0,
    {
        let aggregate = PartialAggregate { weapons: Table::new(), players: Table::new() };
        proof {
            aggregate.weapons.lemma_weight_counted();
            aggregate.players.lemma_weight_counted();
        }
        aggregate
    }

    /// Merges two aggregates into one.
    pub fn merge(self, other: Self) -> (both: Self)
        requires
            self.wf(),
            other.wf(),
            self.kills() + other.kills() <= u64::MAX,
        ensures
            both.wf(),
            both@ == merged(self@, other@),
            both.kills() == self.kills() + other.kills(),
            both.attributed() == self.attributed() + other.attributed(),
    {
        let mut both = self;
        both.fold_line(other);
        both
    }

    /// Adds what was gathered from a line, or from many, into this aggregate.
    pub fn fold_line(&mut self, update: Self)
        requires
            old(self).wf(),
            update.wf(),
            old(self).kills() + update.kills() <= u64::MAX,
        ensures
            final(self).wf(),
            final(self)@ == merged(old(self)@, update@),
            final(self).kills() == old(self).kills() + update.kills(),
            final(self).attributed() == old(self).attributed() + update.attributed(),
    {
        proof {
            self.weapons.lemma_weight_counted();
            self.players.lemma_weight_counted();
            update.weapons.lemma_weight_counted();
            update.players.lemma_weight_counted();
        }
        add_deaths_and_distances(&mut self.weapons, update.weapons);
        add_players_weapons(&mut self.players, update.players);
        proof {
            self.weapons.lemma_weight_counted();
            self.players.lemma_weight_counted();
        }
    }

    /// The number of kills counted, over all weapons.
    pub fn total_kills(&self) -> (total: u64)
        requires
            self.wf(),
        ensures
            total == self.kills(),
    {
        proof {
            self.weapons.lemma_weight_counted();
        }
        self.weapons.total()
    }
}

} // verus!
