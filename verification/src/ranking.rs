//! The best entries of a table: most kills first, names in dictionary order among equals.

use crate::table::{ascending, entries, kills_by_name, lemma_entries_lookup, lemma_table_of_view, listed, position, Table};
use crate::tally::{weights_of, Tally};
use crate::text::{lemma_precedes_asymmetric, precedes};
use vstd::prelude::*;

verus! {

/// `first` is ranked before `second`: it has more kills, or as many and the name that comes
/// first in dictionary order.
pub open spec fn ranked_before(kills: Map<Seq<u8>, nat>, first: Seq<u8>, second: Seq<u8>) -> bool {
    kills[first] > kills[second] || (kills[first] == kills[second] && precedes(first, second))
}

/// `names` are the best `limit` names of `kills`, best first: each is a name of the map and
/// ranked before those after it, and a name of the map is left out only when the list is
/// full and every name in it is ranked before the one left out.
pub open spec fn is_top(kills: Map<Seq<u8>, nat>, limit: nat, names: Seq<Seq<u8>>) -> bool {
    &&& names.len() <= limit
    &&& forall|i: int| 0 <= i < names.len() ==> kills.dom().contains(#[trigger] names[i])
    &&& forall|i: int, j: int|
        0 <= i < j < names.len() ==> ranked_before(kills, #[trigger] names[i], #[trigger] names[j])
    &&& forall|name: Seq<u8>| #[trigger]
        kills.dom().contains(name) && !listed(names, name) ==> names.len() == limit && forall|
            i: int,
        |
            0 <= i < names.len() ==> ranked_before(kills, #[trigger] names[i], name)
}

/// The smaller of a limit and a count.
pub open spec fn at_most(limit: usize, count: nat) -> nat {
    if limit <= count {
        limit as nat
    } else {
        count
    }
}

/// The names of a table at the given positions.
pub open spec fn picked(names: Seq<Seq<u8>>, positions: Seq<usize>) -> Seq<Seq<u8>> {
    Seq::new(positions.len(), |i: int| names[positions[i] as int])
}

/// Position `a` is ranked before position `b` of a list in dictionary order: more kills, or
/// as many and the earlier position.
spec fn outranks(kills: Seq<nat>, a: int, b: int) -> bool {
    kills[a] > kills[b] || (kills[a] == kills[b] && a < b)
}

/// `positions` are the best `limit` of the first `seen` positions, best first.
spec fn is_ranking(kills: Seq<nat>, seen: int, limit: int, positions: Seq<usize>) -> bool {
    &&& positions.len() <= limit
    &&& forall|a: int| 0 <= a < positions.len() ==> 0 <= #[trigger] positions[a] < seen
    &&& forall|a: int, b: int|
        0 <= a < b < positions.len() ==> outranks(
            kills,
            #[trigger] positions[a] as int,
            #[trigger] positions[b] as int,
        )
    &&& forall|m: int|
        0 <= m < seen && !(#[trigger] at_some(positions, m)) ==> positions.len() == limit && forall|
            a: int,
        |
            0 <= a < positions.len() ==> outranks(kills, #[trigger] positions[a] as int, m)
}

/// `m` is one of the positions.
spec fn at_some(positions: Seq<usize>, m: int) -> bool {
    exists|a: int| 0 <= a < positions.len() && positions[a] == m
}

/// There is only one list of the best names: two lists that both are it are the same list.
/// So the ranking depends on the kills by name alone, not on how they were gathered.
pub proof fn lemma_top_unique(
    kills: Map<Seq<u8>, nat>,
    limit: nat,
    names: Seq<Seq<u8>>,
    others: Seq<Seq<u8>>,
)
    requires
        is_top(kills, limit, names),
        is_top(kills, limit, others),
    ensures
        names == others,
{
    lemma_top_same_start(kills, limit, names, others, names.len() as int);
    lemma_top_same_start(kills, limit, others, names, others.len() as int);
    lemma_top_no_longer(kills, limit, names, others);
    lemma_top_no_longer(kills, limit, others, names);
    assert(names =~= others);
}

/// Among the best names, two with as many kills stand in dictionary order.
pub proof fn lemma_ties_in_name_order(
    kills: Map<Seq<u8>, nat>,
    limit: nat,
    names: Seq<Seq<u8>>,
    i: int,
    j: int,
)
    requires
        is_top(kills, limit, names),
        0 <= i < j < names.len(),
        kills[names[i]] == kills[names[j]],
    ensures
        precedes(names[i], names[j]),
{
}

/// In a list of the best names no name stands twice.
proof fn lemma_top_distinct(kills: Map<Seq<u8>, nat>, limit: nat, names: Seq<Seq<u8>>, i: int, j: int)
    requires
        is_top(kills, limit, names),
        0 <= i < names.len(),
        0 <= j < names.len(),
        names[i] == names[j],
    ensures
        i == j,
{
    lemma_precedes_asymmetric(names[i], names[j]);
}

/// Two lists of the best names agree as far as both go.
proof fn lemma_top_same_start(
    kills: Map<Seq<u8>, nat>,
    limit: nat,
    names: Seq<Seq<u8>>,
    others: Seq<Seq<u8>>,
    n: int,
)
    requires
        is_top(kills, limit, names),
        is_top(kills, limit, others),
        0 <= n <= names.len(),
    ensures
        forall|i: int| 0 <= i < n && i < others.len() ==> names[i] == others[i],
    decreases n,
{
    if n > 0 {
        lemma_top_same_start(kills, limit, names, others, n - 1);
        let i = n - 1;
        if i < others.len() {
            lemma_top_first_of_rest(kills, limit, names, others, i);
            lemma_top_first_of_rest(kills, limit, others, names, i);
            lemma_precedes_asymmetric(names[i], others[i]);
        }
    }
}

/// Where two lists agree before position `i`, the name of the first at `i` is the name of
/// the second there or is ranked before it.
proof fn lemma_top_first_of_rest(
    kills: Map<Seq<u8>, nat>,
    limit: nat,
    names: Seq<Seq<u8>>,
    others: Seq<Seq<u8>>,
    i: int,
)
    requires
        is_top(kills, limit, names),
        is_top(kills, limit, others),
        0 <= i < names.len(),
        i < others.len(),
        forall|j: int| 0 <= j < i ==> names[j] == others[j],
    ensures
        names[i] == others[i] || ranked_before(kills, names[i], others[i]),
{
    let name = others[i];
    assert(kills.dom().contains(name));
    if listed(names, name) {
        let j = position(names, name);
        if j < i {
            lemma_top_distinct(kills, limit, others, j, i);
        }
    }
}

/// Of two lists of the best names the first is not shorter than the second.
proof fn lemma_top_no_longer(
    kills: Map<Seq<u8>, nat>,
    limit: nat,
    names: Seq<Seq<u8>>,
    others: Seq<Seq<u8>>,
)
    requires
        is_top(kills, limit, names),
        is_top(kills, limit, others),
        forall|i: int| 0 <= i < names.len() && i < others.len() ==> names[i] == others[i],
    ensures
        others.len() <= names.len(),
{
    if names.len() < others.len() {
        let name = others[names.len() as int];
        assert(kills.dom().contains(name));
        if listed(names, name) {
            let j = position(names, name);
            lemma_top_distinct(kills, limit, others, j, names.len() as int);
        }
    }
}

/// The ranking after one more position was looked at: `seen` is put in at `place` if that
/// is within the limit, and the last position is dropped if the list got too long.
spec fn with_next(positions: Seq<usize>, seen: usize, place: int, limit: int) -> Seq<usize> {
    if place < limit {
        let grown = positions.insert(place, seen);
        if grown.len() > limit {
            grown.drop_last()
        } else {
            grown
        }
    } else {
        positions
    }
}

/// Looking at one more position keeps the ranking: the new position goes behind those with
/// at least as many kills and before those with fewer.
proof fn lemma_ranking_step(kills: Seq<nat>, seen: usize, limit: int, positions: Seq<usize>, place: int)
    requires
        is_ranking(kills, seen as int, limit, positions),
        seen < kills.len(),
        0 <= place <= positions.len(),
        forall|a: int| place <= a < positions.len() ==> kills[positions[a] as int] < kills[seen as int],
        forall|a: int| 0 <= a < place ==> kills[positions[a] as int] >= kills[seen as int],
    ensures
        is_ranking(kills, seen + 1, limit, with_next(positions, seen, place, limit)),
{
    let next = with_next(positions, seen, place, limit);
    let count = positions.len() as int;
    if place < limit {
        let grown = positions.insert(place, seen);
        assert forall|a: int, b: int| 0 <= a < b < grown.len() implies outranks(
            kills,
            #[trigger] grown[a] as int,
            #[trigger] grown[b] as int,
        ) by {
            if a == place {
                assert(grown[b] == positions[b - 1]);
            } else if b == place {
                assert(grown[a] == positions[a]);
            } else {
                let from = if a < place { a } else { a - 1 };
                let to = if b < place { b } else { b - 1 };
                assert(grown[a] == positions[from] && grown[b] == positions[to]);
            }
        }
        assert(next[place] == seen);
        assert(at_some(next, seen as int));
        assert forall|m: int| 0 <= m < seen + 1 && !(#[trigger] at_some(next, m)) implies next.len()
            == limit && forall|a: int|
            0 <= a < next.len() ==> outranks(kills, #[trigger] next[a] as int, m) by {
            if at_some(positions, m) {
                let was = choose|a: int| 0 <= a < positions.len() && positions[a] == m;
                let now = if was < place { was } else { was + 1 };
                assert(grown[now] == m);
                if now < next.len() {
                    assert(next[now] == m);
                    assert(at_some(next, m));
                }
                assert forall|a: int| 0 <= a < next.len() implies outranks(
                    kills,
                    #[trigger] next[a] as int,
                    m,
                ) by {
                    assert(next[a] == grown[a]);
                }
            } else {
                assert(place < count);
                assert forall|a: int| 0 <= a < next.len() implies outranks(
                    kills,
                    #[trigger] next[a] as int,
                    m,
                ) by {
                    assert(outranks(kills, positions[place] as int, m));
                    if a < place {
                        assert(next[a] == positions[a]);
                    } else if a > place {
                        assert(next[a] == positions[a - 1]);
                    }
                }
            }
        }
    } else {
        assert forall|m: int| 0 <= m < seen + 1 && !(#[trigger] at_some(next, m)) implies next.len()
            == limit && forall|a: int|
            0 <= a < next.len() ==> outranks(kills, #[trigger] next[a] as int, m) by {
            if m < seen {
                assert(!at_some(positions, m));
            }
        }
    }
}

/// A ranking by position in a table with ascending names is the list of its best names.
proof fn lemma_ranking_is_top(names: Seq<Seq<u8>>, kills: Seq<nat>, limit: int, positions: Seq<usize>)
    requires
        ascending(names),
        names.len() == kills.len(),
        0 <= limit,
        is_ranking(kills, names.len() as int, limit, positions),
    ensures
        is_top(entries(names, kills), limit as nat, picked(names, positions)),
{
    let by_name = entries(names, kills);
    let best = picked(names, positions);
    assert forall|i: int| 0 <= i < best.len() implies by_name.dom().contains(#[trigger] best[i]) by {
        lemma_entries_lookup(names, kills, positions[i] as int);
    }
    assert forall|i: int, j: int| 0 <= i < j < best.len() implies ranked_before(
        by_name,
        #[trigger] best[i],
        #[trigger] best[j],
    ) by {
        lemma_entries_lookup(names, kills, positions[i] as int);
        lemma_entries_lookup(names, kills, positions[j] as int);
        assert(outranks(kills, positions[i] as int, positions[j] as int));
    }
    assert forall|name: Seq<u8>| #[trigger]
        by_name.dom().contains(name) && !listed(best, name) implies best.len() == limit && forall|
        i: int,
    |
        0 <= i < best.len() ==> ranked_before(by_name, #[trigger] best[i], name) by {
        let m = position(names, name);
        lemma_entries_lookup(names, kills, m);
        if at_some(positions, m) {
            let a = choose|a: int| 0 <= a < positions.len() && positions[a] == m;
            assert(best[a] == name);
        }
        assert forall|i: int| 0 <= i < best.len() implies ranked_before(
            by_name,
            #[trigger] best[i],
            name,
        ) by {
            lemma_entries_lookup(names, kills, positions[i] as int);
            assert(outranks(kills, positions[i] as int, m));
        }
    }
}

impl<V: Tally> Table<V> {
    /// The positions of the best entries, at most `limit` of them, best first: an entry
    /// with more kills comes before one with fewer, and of two with as many the one whose
    /// name is first in dictionary order.
    pub fn ranking(&self, limit: usize) -> (positions: Vec<usize>)
        requires
            self.wf(),
        ensures
            positions.len() == at_most(limit, self@.dom().len()),
            forall|a: int| 0 <= a < positions.len() ==> #[trigger] positions[a] < self.names().len(),
            is_top(kills_by_name::<V>(self@), limit as nat, picked(self.names(), positions@)),
    {
        let count = self.len();
        let ghost kills = weights_of(self.values());
        let mut positions: Vec<usize> = Vec::new();
        let mut scores: Vec<u64> = Vec::new();
        let mut seen: usize = 0;
        while seen < count
            invariant
                self.wf(),
                count == self.names().len(),
                kills == weights_of(self.values()),
                seen <= count,
                positions.len() == scores.len(),
                positions.len() == if limit <= seen {
                    limit
                } else {
                    seen
                },
                is_ranking(kills, seen as int, limit as int, positions@),
                forall|a: int|
                    0 <= a < positions.len() ==> #[trigger] scores[a] == kills[positions[a] as int],
            decreases count - seen,
        {
            let score = self.value_at(seen).count();
            let mut place: usize = positions.len();
            while place > 0 && scores[place - 1] < score
                invariant
                    place <= positions.len(),
                    positions.len() == scores.len(),
                    forall|a: int| place <= a < scores.len() ==> #[trigger] scores[a] < score,
                decreases place,
            {
                place -= 1;
            }
            proof {
                assert forall|a: int| 0 <= a < place implies kills[positions[a] as int]
                    >= kills[seen as int] by {
                    if a < place - 1 {
                        assert(outranks(kills, positions[a] as int, positions[place - 1] as int));
                    }
                    assert(scores[a] == kills[positions[a] as int]);
                    assert(scores[place - 1] == kills[positions[place - 1] as int]);
                }
                assert forall|a: int| place <= a < positions.len() implies kills[positions[a] as int]
                    < kills[seen as int] by {
                    assert(scores[a] == kills[positions[a] as int]);
                }
                lemma_ranking_step(kills, seen, limit as int, positions@, place as int);
            }
            let ghost before = positions@;
            if place < limit {
                positions.insert(place, seen);
                scores.insert(place, score);
                if positions.len() > limit {
                    positions.pop();
                    scores.pop();
                }
            }
            assert(positions@ =~= with_next(before, seen, place as int, limit as int));
            seen += 1;
        }
        proof {
            lemma_ranking_is_top(self.names(), kills, limit as int, positions@);
            lemma_table_of_view(self);
        }
        positions
    }
}

} // verus!
