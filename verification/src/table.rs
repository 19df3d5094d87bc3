//! A table of statistics by name, kept in dictionary order of the names.
//!
//! A table stands for a finite map from names to values. Keeping the names in ascending
//! order makes the table a function of that map alone: however the same entries were
//! gathered, the table lists them the same way.

use crate::tally::{lemma_weight_after_insert, lemma_weight_after_update, lemma_weight_of_entry, lemma_weight_of_prefix, models, total_weight, weights_of, Tally};
use crate::text::{compare_names, lemma_precedes_irreflexive, lemma_precedes_transitive, precedes, texts, NameOrder};
use vstd::prelude::*;

verus! {

/// Each name comes strictly before those after it.
pub open spec fn ascending(names: Seq<Seq<u8>>) -> bool {
    forall|i: int, j: int|
        0 <= i < j < names.len() ==> precedes(#[trigger] names[i], #[trigger] names[j])
}

/// `name` stands somewhere in `names`.
pub open spec fn listed(names: Seq<Seq<u8>>, name: Seq<u8>) -> bool {
    exists|i: int| 0 <= i < names.len() && names[i] == name
}

/// A position at which `name` stands in `names`.
pub open spec fn position(names: Seq<Seq<u8>>, name: Seq<u8>) -> int {
    choose|i: int| 0 <= i < names.len() && names[i] == name
}

/// The map that takes each listed name to the value at its position.
pub open spec fn entries<M>(names: Seq<Seq<u8>>, values: Seq<M>) -> Map<Seq<u8>, M> {
    Map::new(|name: Seq<u8>| listed(names, name), |name: Seq<u8>| values[position(names, name)])
}

/// Two maps merged: a name of either is a name of the result, and where both have it the
/// values are joined.
pub open spec fn join_maps<V: Tally>(a: Map<Seq<u8>, V::Model>, b: Map<Seq<u8>, V::Model>) -> Map<
    Seq<u8>,
    V::Model,
> {
    Map::new(
        |name: Seq<u8>| a.dom().contains(name) || b.dom().contains(name),
        |name: Seq<u8>|
            if a.dom().contains(name) && b.dom().contains(name) {
                V::join(a[name], b[name])
            } else if a.dom().contains(name) {
                a[name]
            } else {
                b[name]
            },
    )
}

/// A map after one more value was counted under `name`.
pub open spec fn tallied<V: Tally>(m: Map<Seq<u8>, V::Model>, name: Seq<u8>, x: V::Model) -> Map<
    Seq<u8>,
    V::Model,
> {
    if m.dom().contains(name) {
        m.insert(name, V::join(m[name], x))
    } else {
        m.insert(name, x)
    }
}

/// Adds to a sum the kills counted under a name of `m`.
pub open spec fn adding<V: Tally>(m: Map<Seq<u8>, V::Model>) -> spec_fn(nat, Seq<u8>) -> nat {
    |sum: nat, name: Seq<u8>| sum + V::counted(m[name])
}

/// The kills counted in a map, over all its names.
pub open spec fn counted_in<V: Tally>(m: Map<Seq<u8>, V::Model>) -> nat {
    m.dom().fold(0nat, adding::<V>(m))
}

/// The first `n` names of a list, as a set.
spec fn first_names(names: Seq<Seq<u8>>, n: int) -> Set<Seq<u8>> {
    Set::new(|name: Seq<u8>| exists|i: int| 0 <= i < n && names[i] == name)
}

/// Where a name stands in a table, or where it would have to be put.
pub enum Slot {
    Taken(usize),
    Free(usize),
}

/// `i` is the one position at which `name` can be put into `names` without breaking the order.
pub open spec fn free_at(names: Seq<Seq<u8>>, name: Seq<u8>, i: int) -> bool {
    &&& 0 <= i <= names.len()
    &&& forall|j: int| 0 <= j < i ==> precedes(#[trigger] names[j], name)
    &&& forall|j: int| i <= j < names.len() ==> precedes(name, #[trigger] names[j])
}

/// In an ascending list a name stands at one position only.
pub proof fn lemma_ascending_distinct(names: Seq<Seq<u8>>, i: int, j: int)
    requires
        ascending(names),
        0 <= i < names.len(),
        0 <= j < names.len(),
        names[i] == names[j],
    ensures
        i == j,
{
    lemma_precedes_irreflexive(names[i]);
}

/// What the map of an ascending list holds: under each name the value at its position.
pub proof fn lemma_entries_lookup<M>(names: Seq<Seq<u8>>, values: Seq<M>, i: int)
    requires
        ascending(names),
        0 <= i < names.len(),
    ensures
        entries(names, values).dom().contains(names[i]),
        entries(names, values)[names[i]] == values[i],
{
    assert(listed(names, names[i]));
    lemma_ascending_distinct(names, i, position(names, names[i]));
}

/// A name that can be put somewhere is not in the list.
pub proof fn lemma_free_not_listed(names: Seq<Seq<u8>>, name: Seq<u8>, i: int)
    requires
        free_at(names, name, i),
    ensures
        !listed(names, name),
{
    if listed(names, name) {
        lemma_precedes_irreflexive(name);
    }
}

/// Putting a new name at its free position keeps the order and adds one entry to the map.
pub proof fn lemma_entries_insert<M>(
    names: Seq<Seq<u8>>,
    values: Seq<M>,
    i: int,
    name: Seq<u8>,
    value: M,
)
    requires
        ascending(names),
        names.len() == values.len(),
        free_at(names, name, i),
    ensures
        ascending(names.insert(i, name)),
        !entries(names, values).dom().contains(name),
        entries(names.insert(i, name), values.insert(i, value)) == entries(names, values).insert(
            name,
            value,
        ),
{
    let grown = names.insert(i, name);
    let held = values.insert(i, value);
    lemma_free_not_listed(names, name, i);
    assert forall|a: int, b: int| 0 <= a < b < grown.len() implies precedes(
        #[trigger] grown[a],
        #[trigger] grown[b],
    ) by {
        if a == i {
            assert(grown[b] == names[b - 1]);
        } else if b == i {
            assert(grown[a] == names[a]);
        } else {
            let from = if a < i { a } else { a - 1 };
            let to = if b < i { b } else { b - 1 };
            assert(grown[a] == names[from] && grown[b] == names[to]);
        }
    }
    let after = entries(grown, held);
    let wanted = entries(names, values).insert(name, value);
    assert forall|key: Seq<u8>| after.dom().contains(key) <==> wanted.dom().contains(key) by {
        if listed(grown, key) {
            let j = position(grown, key);
            if j < i {
                assert(names[j] == key);
            } else if j > i {
                assert(names[j - 1] == key);
            }
        }
        if listed(names, key) {
            let j = position(names, key);
            let to = if j < i { j } else { j + 1 };
            assert(grown[to] == key);
        }
        if key == name {
            assert(grown[i] == key);
        }
    }
    assert forall|key: Seq<u8>| after.dom().contains(key) implies after[key] == wanted[key] by {
        let j = position(grown, key);
        lemma_entries_lookup(grown, held, j);
        if j < i {
            lemma_entries_lookup(names, values, j);
        } else if j > i {
            lemma_entries_lookup(names, values, j - 1);
        }
    }
    assert(after =~= wanted);
}

/// Replacing the value at a position replaces it in the map.
pub proof fn lemma_entries_update<M>(names: Seq<Seq<u8>>, values: Seq<M>, i: int, value: M)
    requires
        ascending(names),
        names.len() == values.len(),
        0 <= i < names.len(),
    ensures
        entries(names, values.update(i, value)) == entries(names, values).insert(names[i], value),
{
    let after = entries(names, values.update(i, value));
    let wanted = entries(names, values).insert(names[i], value);
    assert forall|key: Seq<u8>| after.dom().contains(key) <==> wanted.dom().contains(key) by {
        if key == names[i] {
            assert(listed(names, key));
        }
    }
    assert forall|key: Seq<u8>| after.dom().contains(key) implies after[key] == wanted[key] by {
        let j = position(names, key);
        lemma_entries_lookup(names, values.update(i, value), j);
        lemma_entries_lookup(names, values, j);
        if j != i && names[j] == names[i] {
            lemma_ascending_distinct(names, i, j);
        }
    }
    assert(after =~= wanted);
}

/// Two ascending lists with the same map are the same lists.
pub proof fn lemma_entries_canonical<M>(
    names: Seq<Seq<u8>>,
    values: Seq<M>,
    others: Seq<Seq<u8>>,
    other_values: Seq<M>,
)
    requires
        ascending(names),
        ascending(others),
        names.len() == values.len(),
        others.len() == other_values.len(),
        entries(names, values) == entries(others, other_values),
    ensures
        names == others,
        values == other_values,
    decreases names.len(),
{
    let m = entries(names, values);
    if names.len() == 0 {
        if others.len() > 0 {
            lemma_entries_lookup(others, other_values, 0);
            assert(listed(names, others[0]));
        }
    } else if others.len() == 0 {
        lemma_entries_lookup(names, values, 0);
        assert(listed(others, names[0]));
    } else {
        // The last names are the greatest of their lists, so they are the same name.
        let n = names.len() - 1;
        let k = others.len() - 1;
        lemma_entries_lookup(names, values, n);
        lemma_entries_lookup(others, other_values, k);
        assert(listed(others, names[n]));
        assert(listed(names, others[k]));
        let pn = position(others, names[n]);
        let pk = position(names, others[k]);
        if pn < k {
            if pk < n {
                lemma_precedes_transitive(names[n], others[k], names[n]);
                lemma_precedes_irreflexive(names[n]);
            } else {
                lemma_precedes_irreflexive(others[k]);
            }
        }
        assert(names[n] == others[k]);
        let short_names = names.drop_last();
        let short_values = values.drop_last();
        let short_others = others.drop_last();
        let short_other_values = other_values.drop_last();
        assert(free_at(short_names, names[n], n));
        assert(free_at(short_others, others[k], k));
        lemma_entries_insert(short_names, short_values, n, names[n], values[n]);
        lemma_entries_insert(short_others, short_other_values, k, others[k], other_values[k]);
        assert(short_names.insert(n, names[n]) =~= names);
        assert(short_values.insert(n, values[n]) =~= values);
        assert(short_others.insert(k, others[k]) =~= others);
        assert(short_other_values.insert(k, other_values[k]) =~= other_values);
        let a = entries(short_names, short_values);
        let b = entries(short_others, short_other_values);
        assert(a =~= m.remove(names[n]));
        assert(b =~= m.remove(names[n]));
        lemma_entries_canonical(short_names, short_values, short_others, short_other_values);
        assert(names =~= others);
        assert(values =~= other_values);
    }
}

/// Merging with the empty map changes nothing.
pub proof fn lemma_join_maps_empty<V: Tally>(m: Map<Seq<u8>, V::Model>)
    ensures
        join_maps::<V>(m, Map::empty()) == m,
        join_maps::<V>(Map::empty(), m) == m,
{
    assert(join_maps::<V>(m, Map::empty()) =~= m);
    assert(join_maps::<V>(Map::empty(), m) =~= m);
}

/// The order of two maps does not matter to their merge.
pub proof fn lemma_join_maps_commutes<V: Tally>(a: Map<Seq<u8>, V::Model>, b: Map<Seq<u8>, V::Model>)
    ensures
        join_maps::<V>(a, b) == join_maps::<V>(b, a),
{
    assert forall|name: Seq<u8>| a.dom().contains(name) && b.dom().contains(name) implies V::join(
        a[name],
        b[name],
    ) == V::join(b[name], a[name]) by {
        V::lemma_join_commutes(a[name], b[name]);
    }
    assert(join_maps::<V>(a, b) =~= join_maps::<V>(b, a));
}

/// The grouping of three maps does not matter to their merge.
pub proof fn lemma_join_maps_associates<V: Tally>(
    a: Map<Seq<u8>, V::Model>,
    b: Map<Seq<u8>, V::Model>,
    c: Map<Seq<u8>, V::Model>,
)
    ensures
        join_maps::<V>(join_maps::<V>(a, b), c) == join_maps::<V>(a, join_maps::<V>(b, c)),
{
    assert forall|name: Seq<u8>|
        a.dom().contains(name) && b.dom().contains(name) && c.dom().contains(name) implies V::join(
        V::join(a[name], b[name]),
        c[name],
    ) == V::join(a[name], V::join(b[name], c[name])) by {
        V::lemma_join_associates(a[name], b[name], c[name]);
    }
    assert(join_maps::<V>(join_maps::<V>(a, b), c) =~= join_maps::<V>(a, join_maps::<V>(b, c)));
}

/// Counting one more value under a name is merging with the map of that one entry.
pub proof fn lemma_tallied_is_join<V: Tally>(m: Map<Seq<u8>, V::Model>, name: Seq<u8>, x: V::Model)
    ensures
        tallied::<V>(m, name, x) == join_maps::<V>(m, Map::empty().insert(name, x)),
{
    let one = Map::<Seq<u8>, V::Model>::empty().insert(name, x);
    let counted = tallied::<V>(m, name, x);
    let joined = join_maps::<V>(m, one);
    assert(one[name] == x);
    assert forall|key: Seq<u8>| counted.dom().contains(key) <==> joined.dom().contains(key) by {
        assert(one.dom().contains(key) <==> key == name);
    }
    assert forall|key: Seq<u8>| counted.dom().contains(key) implies counted[key] == joined[key] by {
        assert(one.dom().contains(key) <==> key == name);
    }
    assert(counted =~= joined);
}

/// The kills counted under the first `n` names of a table are the weight of its first `n`
/// statistics.
proof fn lemma_counted_first<V: Tally>(table: &Table<V>, n: int)
    requires
        table.wf(),
        0 <= n <= table.names().len(),
    ensures
        first_names(table.names(), n).finite(),
        first_names(table.names(), n).len() == n,
        first_names(table.names(), n).fold(0nat, adding::<V>(table@)) == total_weight(
            table.values().take(n),
        ),
    decreases n,
{
    let names = table.names();
    let values = table.values();
    let add = adding::<V>(table@);
    assert(vstd::set::fold::is_fun_commutative(add));
    if n == 0 {
        assert(first_names(names, 0) =~= Set::<Seq<u8>>::empty());
        vstd::set::fold::lemma_fold_empty(0nat, add);
        assert(values.take(0) =~= Seq::<V>::empty());
    } else {
        let before = first_names(names, n - 1);
        let name = names[n - 1];
        lemma_counted_first(table, n - 1);
        assert(!before.contains(name)) by {
            if before.contains(name) {
                let i = choose|i: int| 0 <= i < n - 1 && names[i] == name;
                lemma_ascending_distinct(names, i, n - 1);
            }
        }
        assert(first_names(names, n) =~= before.insert(name));
        vstd::set::fold::lemma_fold_insert(before, 0nat, add, name);
        lemma_entries_lookup(names, models(values), n - 1);
        values[n - 1].lemma_weight_counted();
        lemma_weight_of_prefix(values, n - 1);
    }
}

/// All names of a table, as a set, are the names of the map that it stands for.
proof fn lemma_all_names<V: Tally>(table: &Table<V>)
    ensures
        first_names(table.names(), table.names().len() as int) == table@.dom(),
{
    let names = table.names();
    let all = first_names(names, names.len() as int);
    assert forall|name: Seq<u8>| table@.dom().contains(name) implies all.contains(name) by {
        let at = position(names, name);
        assert(names[at] == name);
    }
    assert(all =~= table@.dom());
}

/// The kills counted under each name of a map.
pub open spec fn kills_by_name<V: Tally>(m: Map<Seq<u8>, V::Model>) -> Map<Seq<u8>, nat> {
    Map::new(|name: Seq<u8>| m.dom().contains(name), |name: Seq<u8>| V::counted(m[name]))
}

/// What a table lists is what its map holds: the names are those of the map, as many, and
/// the weight under each name is the number of kills counted under it in the map.
pub proof fn lemma_table_of_view<V: Tally>(table: &Table<V>)
    requires
        table.wf(),
    ensures
        table@.dom().finite(),
        table@.dom().len() == table.names().len(),
        table.weights() == kills_by_name::<V>(table@),
        forall|i: int|
            0 <= i < table.names().len() ==> table@.dom().contains(#[trigger] table.names()[i])
                && table@[table.names()[i]] == table.values()[i].model(),
{
    let names = table.names();
    let values = table.values();
    lemma_counted_first(table, names.len() as int);
    lemma_all_names(table);
    assert forall|i: int| 0 <= i < names.len() implies table@.dom().contains(#[trigger] names[i])
        && table@[names[i]] == values[i].model() by {
        lemma_entries_lookup(names, models(values), i);
    }
    assert forall|name: Seq<u8>| table.weights().dom().contains(name) implies table.weights()[name]
        == kills_by_name::<V>(table@)[name] by {
        let at = position(names, name);
        lemma_entries_lookup(names, weights_of(values), at);
        lemma_entries_lookup(names, models(values), at);
        values[at].lemma_weight_counted();
    }
    assert(table.weights() =~= kills_by_name::<V>(table@));
}

/// Two tables that stand for the same map list the same names with the same values,
/// however each of them was put together.
pub proof fn lemma_same_view_same_table<V: Tally>(table: &Table<V>, other: &Table<V>)
    requires
        table.wf(),
        other.wf(),
        table@ == other@,
    ensures
        table.names() == other.names(),
        models(table.values()) == models(other.values()),
        table.weight() == other.weight(),
{
    lemma_entries_canonical(
        table.names(),
        models(table.values()),
        other.names(),
        models(other.values()),
    );
    table.lemma_weight_counted();
    other.lemma_weight_counted();
}

/// Finds `name` in an ascending list by halving, or the position where it belongs.
pub fn find(names: &Vec<Vec<u8>>, name: &[u8]) -> (slot: Slot)
    requires
        ascending(texts(names@)),
    ensures
        match slot {
            Slot::Taken(i) => i < names.len() && names[i as int]@ == name@,
            Slot::Free(i) => free_at(texts(names@), name@, i as int),
        },
{
    let mut low: usize = 0;
    let mut high: usize = names.len();
    let ghost list = texts(names@);
    while low < high
        invariant
            low <= high <= names.len(),
            list == texts(names@),
            ascending(list),
            forall|j: int| 0 <= j < low ==> precedes(#[trigger] list[j], name@),
            forall|j: int| high <= j < list.len() ==> precedes(name@, #[trigger] list[j]),
        decreases high - low,
    {
        let middle: usize = low + (high - low) / 2;
        match compare_names(names[middle].as_slice(), name) {
            NameOrder::Same => {
                return Slot::Taken(middle);
            },
            NameOrder::Before => {
                assert forall|j: int| 0 <= j < middle + 1 implies precedes(
                    #[trigger] list[j],
                    name@,
                ) by {
                    if j < middle {
                        lemma_precedes_transitive(list[j], list[middle as int], name@);
                    }
                }
                low = middle + 1;
            },
            NameOrder::After => {
                assert forall|j: int| middle <= j < list.len() implies precedes(
                    name@,
                    #[trigger] list[j],
                ) by {
                    if j > middle {
                        lemma_precedes_transitive(name@, list[middle as int], list[j]);
                    }
                }
                high = middle;
            },
        }
    }
    Slot::Free(low)
}

/// Statistics by name.
pub struct Table<V> {
    names: Vec<Vec<u8>>,
    values: Vec<V>,
}

impl<V: Tally> View for Table<V> {
    type V = Map<Seq<u8>, V::Model>;

    /// The map from each name to the mathematical value of its statistic.
    open spec fn view(&self) -> Map<Seq<u8>, V::Model> {
        entries(self.names(), models(self.values()))
    }
}

impl<V: Tally> Table<V> {
    /// The names, in the order in which the table lists them.
    pub closed spec fn names(&self) -> Seq<Seq<u8>> {
        texts(self.names@)
    }

    /// The statistics, each at the position of its name.
    pub closed spec fn values(&self) -> Seq<V> {
        self.values@
    }

    /// The number of kills counted under each name.
    pub open spec fn weights(&self) -> Map<Seq<u8>, nat> {
        entries(self.names(), weights_of(self.values()))
    }

    /// The table without entries.
    pub fn new() -> (table: Self)
        ensures
            table.wf(),
            table.names().len() == 0,
            table@ == Map::<Seq<u8>, V::Model>::empty(),
            table.weight() == 0,
    {
        let table = Table { names: Vec::new(), values: Vec::new() };
        assert(table@ =~= Map::<Seq<u8>, V::Model>::empty());
        table
    }

    /// The number of entries.
    pub fn len(&self) -> (n: usize)
        requires
            self.wf(),
        ensures
            n == self.names().len(),
            n == self.values().len(),
            n == self@.dom().len(),
    {
        proof {
            lemma_table_of_view(self);
        }
        self.names.len()
    }

    /// The name at a position.
    pub fn name_at(&self, i: usize) -> (name: &Vec<u8>)
        requires
            self.wf(),
            i < self.names().len(),
        ensures
            name@ == self.names()[i as int],
    {
        &self.names[i]
    }

    /// The statistic at a position.
    pub fn value_at(&self, i: usize) -> (value: &V)
        requires
            self.wf(),
            i < self.values().len(),
        ensures
            *value == self.values()[i as int],
    {
        &self.values[i]
    }

    /// The statistic kept under `name`, if there is one.
    pub fn get(&self, name: &[u8]) -> (found: Option<&V>)
        requires
            self.wf(),
        ensures
            found.is_some() == self@.dom().contains(name@),
            found matches Some(value) ==> value.wf() && value.model() == self@[name@],
    {
        match find(&self.names, name) {
            Slot::Taken(i) => {
                proof {
                    lemma_entries_lookup(self.names(), models(self.values()), i as int);
                }
                Some(&self.values[i])
            },
            Slot::Free(i) => {
                proof {
                    lemma_free_not_listed(self.names(), name@, i as int);
                }
                None
            },
        }
    }

    /// The number of kills counted over all entries.
    pub fn total(&self) -> (kills: u64)
        requires
            self.wf(),
        ensures
            kills == self.weight(),
    {
        let mut kills: u64 = 0;
        let mut i: usize = 0;
        proof {
            lemma_weight_of_prefix(self.values@, 0);
        }
        while i < self.values.len()
            invariant
                self.wf(),
                i <= self.values.len(),
                kills == total_weight(self.values@.take(i as int)),
                total_weight(self.values@.take(i as int)) <= total_weight(self.values@),
            decreases self.values.len() - i,
        {
            proof {
                lemma_weight_of_prefix(self.values@, i as int);
                lemma_weight_of_prefix(self.values@, i + 1);
            }
            let part = self.values[i].count();
            kills = kills + part;
            i += 1;
        }
        assert(self.values@.take(i as int) =~= self.values@);
        kills
    }

    /// Counts `value` under `name`: joined to what the name has, or as a new entry.
    pub fn upsert(&mut self, name: Vec<u8>, value: V)
        requires
            old(self).wf(),
            value.wf(),
            old(self).weight() + value.weight() <= u64::MAX,
        ensures
            final(self).wf(),
            final(self)@ == tallied::<V>(old(self)@, name@, value.model()),
            final(self).weight() == old(self).weight() + value.weight(),
    {
        let ghost names = self.names();
        let ghost values = self.values();
        match find(&self.names, name.as_slice()) {
            Slot::Taken(i) => {
                proof {
                    lemma_weight_of_entry(values, i as int);
                    lemma_entries_lookup(names, models(values), i as int);
                }
                self.values[i].absorb(value);
                proof {
                    let joined = self.values@[i as int];
                    assert(self.values@ == values.update(i as int, joined));
                    lemma_weight_after_update(values, i as int, joined);
                    assert(models(self.values()) =~= models(values).update(
                        i as int,
                        joined.model(),
                    ));
                    lemma_entries_update(names, models(values), i as int, joined.model());
                }
            },
            Slot::Free(i) => {
                proof {
                    lemma_weight_after_insert(values, i as int, value);
                    lemma_entries_insert(names, models(values), i as int, name@, value.model());
                }
                self.names.insert(i, name);
                self.values.insert(i, value);
                proof {
                    assert(self.names() =~= names.insert(i as int, name@));
                    assert(models(self.values()) =~= models(values).insert(
                        i as int,
                        value.model(),
                    ));
                }
            },
        }
    }
}

impl<V: Tally> Tally for Table<V> {
    type Model = Map<Seq<u8>, V::Model>;

    open spec fn model(&self) -> Map<Seq<u8>, V::Model> {
        self@
    }

    /// The names ascend, each has its statistic, and the kills counted fit a `u64`.
    open spec fn wf(&self) -> bool {
        &&& self.names().len() == self.values().len()
        &&& ascending(self.names())
        &&& forall|i: int| 0 <= i < self.values().len() ==> (#[trigger] self.values()[i]).wf()
        &&& total_weight(self.values()) <= u64::MAX
    }

    open spec fn weight(&self) -> nat {
        total_weight(self.values())
    }

    open spec fn join(a: Map<Seq<u8>, V::Model>, b: Map<Seq<u8>, V::Model>) -> Map<
        Seq<u8>,
        V::Model,
    > {
        join_maps::<V>(a, b)
    }

    open spec fn counted(m: Map<Seq<u8>, V::Model>) -> nat {
        counted_in::<V>(m)
    }

    proof fn lemma_weight_counted(&self) {
        lemma_counted_first(self, self.names().len() as int);
        lemma_all_names(self);
        assert(self.values().take(self.names().len() as int) =~= self.values());
    }

    proof fn lemma_join_commutes(a: Map<Seq<u8>, V::Model>, b: Map<Seq<u8>, V::Model>) {
        lemma_join_maps_commutes::<V>(a, b);
    }

    proof fn lemma_join_associates(
        a: Map<Seq<u8>, V::Model>,
        b: Map<Seq<u8>, V::Model>,
        c: Map<Seq<u8>, V::Model>,
    ) {
        lemma_join_maps_associates::<V>(a, b, c);
    }

    fn count(&self) -> u64 {
        self.total()
    }

    /// Merges `other` into this table, entry by entry.
    fn absorb(&mut self, other: Self) {
        let ghost before = self@;
        let ghost whole = other@;
        let ghost weight = self.weight() + other.weight();
        let mut names = other.names;
        let mut values = other.values;
        proof {
            lemma_join_maps_empty::<V>(before);
        }
        while names.len() > 0
            invariant
                self.wf(),
                names.len() == values.len(),
                ascending(texts(names@)),
                forall|i: int| 0 <= i < values.len() ==> (#[trigger] values@[i]).wf(),
                self.weight() + total_weight(values@) == weight,
                weight <= u64::MAX,
                join_maps::<V>(self@, entries(texts(names@), models(values@))) == join_maps::<V>(
                    before,
                    whole,
                ),
            decreases names.len(),
        {
            let ghost listed_names = texts(names@);
            let ghost listed_values = values@;
            let ghost current = self@;
            let name = names.pop().unwrap();
            let value = values.pop().unwrap();
            proof {
                let rest = texts(names@);
                let n = rest.len() as int;
                assert(rest =~= listed_names.drop_last());
                assert(values@ =~= listed_values.drop_last());
                assert(value == listed_values.last());
                assert(name@ == listed_names.last());
                assert(ascending(rest));
                assert(free_at(rest, name@, n));
                lemma_entries_insert(rest, models(values@), n, name@, value.model());
                assert(rest.insert(n, name@) =~= listed_names);
                assert(models(values@).insert(n, value.model()) =~= models(listed_values));
            }
            self.upsert(name, value);
            proof {
                let rest = entries(texts(names@), models(values@));
                assert(join_maps::<V>(self@, rest) =~= join_maps::<V>(
                    current,
                    rest.insert(name@, value.model()),
                ));
            }
        }
        proof {
            assert(entries(texts(names@), models(values@)) =~= Map::<Seq<u8>, V::Model>::empty());
            lemma_join_maps_empty::<V>(self@);
        }
    }
}

} // verus!
