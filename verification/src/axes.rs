//! Maps that are keyed by axis name.
//!
//! A location gives a coordinate to each of its axes and a region gives a tent
//! to each of its axes. Both are finite maps from axis names, and both are kept
//! here in one canonical form: a sequence of entries in strictly increasing
//! order of name. Two maps are then equal exactly when their sequences are.

use crate::order::{
    compare_names, compare_strs, lemma_compare_names, lemma_compare_names_transitive, Order,
};
use vstd::prelude::*;

verus! {

/// The entries of a map, as mathematical values: each a name and what the map
/// gives to it.
pub type Entries<T> = Seq<(Seq<char>, T)>;

/// The names of `entries` increase strictly, so that no name occurs twice.
pub open spec fn increasing<T>(entries: Entries<T>) -> bool {
    forall|i: int, j: int|
        #![trigger entries[i], entries[j]]
        0 <= i < j < entries.len() ==> compare_names(entries[i].0, entries[j].0) == Order::Less
}

/// What `entries` give to `name`, if anything.
pub open spec fn lookup<T>(entries: Entries<T>, name: Seq<char>) -> Option<T>
    decreases entries.len(),
{
    if entries.len() == 0 {
        None
    } else if entries[0].0 == name {
        Some(entries[0].1)
    } else {
        lookup(entries.skip(1), name)
    }
}

/// `entries` with `value` given to `name`, in place of what they gave to it
/// before, if anything.
pub open spec fn put<T>(entries: Entries<T>, name: Seq<char>, value: T) -> Entries<T>
    decreases entries.len(),
{
    if entries.len() == 0 {
        seq![(name, value)]
    } else if entries[0].0 == name {
        seq![(name, value)] + entries.skip(1)
    } else if compare_names(name, entries[0].0) == Order::Less {
        seq![(name, value)] + entries
    } else {
        seq![entries[0]] + put(entries.skip(1), name, value)
    }
}

/// The names of `entries`, in their order.
pub open spec fn names_of<T>(entries: Entries<T>) -> Seq<Seq<char>> {
    Seq::new(entries.len(), |i: int| entries[i].0)
}

/// In increasing entries a name is found at the one position that holds it.
pub proof fn lemma_lookup_at<T>(entries: Entries<T>, i: int)
    requires
        increasing(entries),
        0 <= i < entries.len(),
    ensures
        lookup(entries, entries[i].0) == Some(entries[i].1),
    decreases i,
{
    if i > 0 {
        let rest = entries.skip(1);
        assert(entries[0].0 != entries[i].0) by {
            assert(compare_names(entries[0].0, entries[i].0) == Order::Less);
            lemma_compare_names(entries[0].0, entries[i].0);
        }
        lemma_increasing_skip(entries);
        assert(rest[i - 1] == entries[i]);
        lemma_lookup_at(rest, i - 1);
    }
}

/// What a lookup finds is an entry, and a name that no entry holds is not found.
pub proof fn lemma_lookup_found<T>(entries: Entries<T>, name: Seq<char>)
    ensures
        match lookup(entries, name) {
            Some(value) => exists|i: int|
                0 <= i < entries.len() && #[trigger] entries[i] == (name, value),
            None => forall|i: int| 0 <= i < entries.len() ==> (#[trigger] entries[i]).0 != name,
        },
    decreases entries.len(),
{
    if entries.len() > 0 {
        if entries[0].0 == name {
            assert(entries[0] == (name, entries[0].1));
        } else {
            let rest = entries.skip(1);
            lemma_lookup_found(rest, name);
            match lookup(rest, name) {
                Some(value) => {
                    let i = choose|i: int| 0 <= i < rest.len() && #[trigger] rest[i] == (name, value);
                    assert(entries[i + 1] == rest[i]);
                },
                None => {
                    assert forall|i: int| 0 <= i < entries.len() implies (#[trigger] entries[i]).0
                        != name by {
                        if i > 0 {
                            assert(rest[i - 1] == entries[i]);
                        }
                    }
                },
            }
        }
    }
}

/// The entries behind the first of increasing entries increase too.
pub proof fn lemma_increasing_skip<T>(entries: Entries<T>)
    requires
        increasing(entries),
        entries.len() > 0,
    ensures
        increasing(entries.skip(1)),
{
    let rest = entries.skip(1);
    assert forall|a: int, b: int| 0 <= a < b < rest.len() implies compare_names(
        #[trigger] rest[a].0,
        #[trigger] rest[b].0,
    ) == Order::Less by {
        assert(rest[a] == entries[a + 1]);
        assert(rest[b] == entries[b + 1]);
    }
}

/// Where `put` places the entry: behind the `at` entries whose names are
/// smaller, in place of an entry of the same name if there is one.
pub proof fn lemma_put_at<T>(entries: Entries<T>, name: Seq<char>, value: T, at: int)
    requires
        increasing(entries),
        0 <= at <= entries.len(),
        forall|i: int| 0 <= i < at ==> compare_names((#[trigger] entries[i]).0, name) == Order::Less,
        at < entries.len() ==> compare_names(entries[at].0, name) != Order::Less,
    ensures
        at < entries.len() && entries[at].0 == name ==> put(entries, name, value)
            == entries.update(at, (name, value)),
        !(at < entries.len() && entries[at].0 == name) ==> put(entries, name, value)
            == entries.insert(at, (name, value)),
    decreases at,
{
    let result = put(entries, name, value);
    if entries.len() == 0 {
        assert(result =~= entries.insert(at, (name, value)));
    } else if at == 0 {
        lemma_compare_names(entries[0].0, name);
        if entries[0].0 == name {
            assert(result =~= entries.update(0, (name, value)));
        } else {
            assert(result =~= entries.insert(0, (name, value)));
        }
    } else {
        let rest = entries.skip(1);
        lemma_compare_names(entries[0].0, name);
        assert(compare_names(entries[0].0, name) == Order::Less);
        lemma_increasing_skip(entries);
        assert forall|i: int| 0 <= i < at - 1 implies compare_names((#[trigger] rest[i]).0, name)
            == Order::Less by {
            assert(rest[i] == entries[i + 1]);
        }
        if at < entries.len() {
            assert(rest[at - 1] == entries[at]);
        }
        lemma_put_at(rest, name, value, at - 1);
        if at < entries.len() && entries[at].0 == name {
            assert(rest.update(at - 1, (name, value)) == put(rest, name, value));
            assert(result =~= entries.update(at, (name, value)));
        } else {
            assert(rest.insert(at - 1, (name, value)) == put(rest, name, value));
            assert(result =~= entries.insert(at, (name, value)));
        }
    }
}

/// Increasing entries stay increasing when the value of one is replaced.
pub proof fn lemma_update_increasing<T>(entries: Entries<T>, at: int, value: T)
    requires
        increasing(entries),
        0 <= at < entries.len(),
    ensures
        increasing(entries.update(at, (entries[at].0, value))),
{
    let result = entries.update(at, (entries[at].0, value));
    assert forall|a: int, b: int| 0 <= a < b < result.len() implies compare_names(
        #[trigger] result[a].0,
        #[trigger] result[b].0,
    ) == Order::Less by {
        assert(result[a].0 == entries[a].0);
        assert(result[b].0 == entries[b].0);
    }
}

/// Increasing entries stay increasing when a name is inserted between the
/// smaller names and the greater ones.
pub proof fn lemma_insert_increasing<T>(entries: Entries<T>, at: int, name: Seq<char>, value: T)
    requires
        increasing(entries),
        0 <= at <= entries.len(),
        forall|i: int| 0 <= i < at ==> compare_names((#[trigger] entries[i]).0, name) == Order::Less,
        forall|i: int|
            at <= i < entries.len() ==> compare_names(name, (#[trigger] entries[i]).0) == Order::Less,
    ensures
        increasing(entries.insert(at, (name, value))),
{
    let result = entries.insert(at, (name, value));
    assert forall|a: int, b: int| 0 <= a < b < result.len() implies compare_names(
        #[trigger] result[a].0,
        #[trigger] result[b].0,
    ) == Order::Less by {
        if a < at && b == at {
            assert(result[a] == entries[a]);
        } else if a < at && b > at {
            assert(result[a] == entries[a]);
            assert(result[b] == entries[b - 1]);
        } else if a < at {
            assert(result[a] == entries[a]);
            assert(result[b] == entries[b]);
        } else if a == at {
            assert(result[b] == entries[b - 1]);
        } else {
            assert(result[a] == entries[a - 1]);
            assert(result[b] == entries[b - 1]);
        }
    }
}

/// `put` keeps increasing entries increasing, given the place of the name.
pub proof fn lemma_put_increasing<T>(entries: Entries<T>, name: Seq<char>, value: T, at: int)
    requires
        increasing(entries),
        0 <= at <= entries.len(),
        forall|i: int| 0 <= i < at ==> compare_names((#[trigger] entries[i]).0, name) == Order::Less,
        at < entries.len() ==> compare_names(entries[at].0, name) != Order::Less,
    ensures
        increasing(put(entries, name, value)),
{
    lemma_put_at(entries, name, value, at);
    if at < entries.len() && entries[at].0 == name {
        lemma_update_increasing(entries, at, value);
    } else {
        assert forall|i: int| at <= i < entries.len() implies compare_names(
            name,
            (#[trigger] entries[i]).0,
        ) == Order::Less by {
            lemma_compare_names(entries[at].0, name);
            if i > at {
                assert(compare_names(entries[at].0, entries[i].0) == Order::Less);
                lemma_compare_names_transitive(name, entries[at].0, entries[i].0);
            }
        }
        lemma_insert_increasing(entries, at, name, value);
    }
}

/// The number of entries whose names are smaller than `name`.
pub open spec fn place_of<T>(entries: Entries<T>, name: Seq<char>) -> int
    decreases entries.len(),
{
    if entries.len() == 0 || compare_names(entries[0].0, name) != Order::Less {
        0
    } else {
        1 + place_of(entries.skip(1), name)
    }
}

/// In increasing entries, the names before the place of `name` are smaller
/// than it and the name at its place is not.
pub proof fn lemma_place_of<T>(entries: Entries<T>, name: Seq<char>)
    requires
        increasing(entries),
    ensures
        0 <= place_of(entries, name) <= entries.len(),
        forall|i: int|
            0 <= i < place_of(entries, name) ==> compare_names((#[trigger] entries[i]).0, name)
                == Order::Less,
        place_of(entries, name) < entries.len() ==> compare_names(
            entries[place_of(entries, name)].0,
            name,
        ) != Order::Less,
    decreases entries.len(),
{
    if entries.len() > 0 && compare_names(entries[0].0, name) == Order::Less {
        let rest = entries.skip(1);
        lemma_increasing_skip(entries);
        lemma_place_of(rest, name);
        let at = place_of(entries, name);
        assert forall|i: int| 0 <= i < at implies compare_names((#[trigger] entries[i]).0, name)
            == Order::Less by {
            if i > 0 {
                assert(rest[i - 1] == entries[i]);
            }
        }
        if at < entries.len() {
            assert(rest[at - 1] == entries[at]);
        }
    }
}

/// `put` keeps increasing entries increasing.
pub proof fn lemma_put_keeps_order<T>(entries: Entries<T>, name: Seq<char>, value: T)
    requires
        increasing(entries),
    ensures
        increasing(put(entries, name, value)),
{
    lemma_place_of(entries, name);
    lemma_put_increasing(entries, name, value, place_of(entries, name));
}

/// After `put`, the name that was put has the new value and every other name
/// has what it had.
pub proof fn lemma_lookup_put<T>(entries: Entries<T>, name: Seq<char>, value: T, other: Seq<char>)
    ensures
        lookup(put(entries, name, value), other) == if other == name {
            Some(value)
        } else {
            lookup(entries, other)
        },
    decreases entries.len(),
{
    let result = put(entries, name, value);
    if entries.len() == 0 {
        assert(result.skip(1) =~= entries);
    } else if entries[0].0 == name {
        assert(result.skip(1) =~= entries.skip(1));
    } else if compare_names(name, entries[0].0) == Order::Less {
        assert(result.skip(1) =~= entries);
    } else {
        assert(result.skip(1) =~= put(entries.skip(1), name, value));
        lemma_lookup_put(entries.skip(1), name, value, other);
    }
}

/// A lookup in entries with one more entry at the end finds what it found
/// before, and the new entry where it found nothing.
pub proof fn lemma_lookup_push<T>(entries: Entries<T>, name: Seq<char>, value: T, other: Seq<char>)
    ensures
        lookup(entries.push((name, value)), other) == match lookup(entries, other) {
            Some(found) => Some(found),
            None => if other == name {
                Some(value)
            } else {
                None
            },
        },
    decreases entries.len(),
{
    let longer = entries.push((name, value));
    if entries.len() == 0 {
        assert(longer.skip(1) =~= entries);
    } else {
        assert(longer.skip(1) =~= entries.skip(1).push((name, value)));
        lemma_lookup_push(entries.skip(1), name, value, other);
    }
}

/// A name that is greater than every name of the entries is put at their end.
pub proof fn lemma_put_last<T>(entries: Entries<T>, name: Seq<char>, value: T)
    requires
        increasing(entries),
        forall|i: int|
            0 <= i < entries.len() ==> compare_names((#[trigger] entries[i]).0, name) == Order::Less,
    ensures
        put(entries, name, value) == entries.push((name, value)),
{
    lemma_put_at(entries, name, value, entries.len() as int);
    assert(entries.insert(entries.len() as int, (name, value)) =~= entries.push((name, value)));
}

/// The first entries of increasing entries increase, and the names behind
/// them are greater than theirs.
pub proof fn lemma_increasing_take<T>(entries: Entries<T>, n: int)
    requires
        increasing(entries),
        0 <= n <= entries.len(),
    ensures
        increasing(entries.take(n)),
        forall|i: int, j: int|
            0 <= i < n <= j < entries.len() ==> compare_names(
                (#[trigger] entries.take(n)[i]).0,
                (#[trigger] entries[j]).0,
            ) == Order::Less,
{
    let front = entries.take(n);
    assert forall|a: int, b: int| 0 <= a < b < front.len() implies compare_names(
        #[trigger] front[a].0,
        #[trigger] front[b].0,
    ) == Order::Less by {
        assert(front[a] == entries[a]);
        assert(front[b] == entries[b]);
    }
    assert forall|i: int, j: int| 0 <= i < n <= j < entries.len() implies compare_names(
        (#[trigger] entries.take(n)[i]).0,
        (#[trigger] entries[j]).0,
    ) == Order::Less by {
        assert(front[i] == entries[i]);
    }
}

/// A name that is smaller than every name of the entries is not found in them.
pub proof fn lemma_lookup_smaller<T>(entries: Entries<T>, name: Seq<char>)
    requires
        forall|i: int|
            0 <= i < entries.len() ==> compare_names(name, (#[trigger] entries[i]).0) == Order::Less,
    ensures
        lookup(entries, name).is_none(),
{
    lemma_lookup_found(entries, name);
    if lookup(entries, name).is_some() {
        let value = lookup(entries, name).unwrap();
        let i = choose|i: int| 0 <= i < entries.len() && #[trigger] entries[i] == (name, value);
        lemma_compare_names(name, entries[i].0);
    }
}

/// Increasing entries are determined by what they give to each name: two
/// maps that agree on every name are the same map.
pub proof fn lemma_same_map<T>(a: Entries<T>, b: Entries<T>)
    requires
        increasing(a),
        increasing(b),
        forall|name: Seq<char>| lookup(a, name) == lookup(b, name),
    ensures
        a == b,
    decreases a.len(),
{
    if a.len() == 0 {
        if b.len() > 0 {
            assert(lookup(b, b[0].0) == Some(b[0].1));
            assert(lookup(a, b[0].0).is_none());
        }
        assert(a =~= b);
    } else {
        let name_a = a[0].0;
        assert(lookup(a, name_a) == Some(a[0].1));
        assert(lookup(b, name_a) == Some(a[0].1));
        assert(b.len() > 0);
        let name_b = b[0].0;
        assert(lookup(b, name_b) == Some(b[0].1));
        assert(lookup(a, name_b) == Some(b[0].1));
        lemma_lookup_found(b, name_a);
        lemma_lookup_found(a, name_b);
        let j = choose|j: int| 0 <= j < b.len() && #[trigger] b[j] == (name_a, a[0].1);
        let i = choose|i: int| 0 <= i < a.len() && #[trigger] a[i] == (name_b, b[0].1);
        lemma_compare_names(name_a, name_b);
        lemma_compare_names(name_b, name_a);
        // the first name of each map stands in the other, and it can only be
        // the first there: else each first name were smaller than the other
        assert(j == 0) by {
            if j > 0 {
                assert(compare_names(b[0].0, b[j].0) == Order::Less);
                if i > 0 {
                    assert(compare_names(a[0].0, a[i].0) == Order::Less);
                }
            }
        }
        assert(a[0] == b[0]);
        let rest_a = a.skip(1);
        let rest_b = b.skip(1);
        lemma_increasing_skip(a);
        lemma_increasing_skip(b);
        assert forall|name: Seq<char>| lookup(rest_a, name) == lookup(rest_b, name) by {
            if name == name_a {
                assert forall|k: int| 0 <= k < rest_a.len() implies compare_names(
                    name,
                    (#[trigger] rest_a[k]).0,
                ) == Order::Less by {
                    assert(rest_a[k] == a[k + 1]);
                    assert(compare_names(a[0].0, a[k + 1].0) == Order::Less);
                }
                assert forall|k: int| 0 <= k < rest_b.len() implies compare_names(
                    name,
                    (#[trigger] rest_b[k]).0,
                ) == Order::Less by {
                    assert(rest_b[k] == b[k + 1]);
                    assert(compare_names(b[0].0, b[k + 1].0) == Order::Less);
                }
                lemma_lookup_smaller(rest_a, name);
                lemma_lookup_smaller(rest_b, name);
            } else {
                assert(lookup(a, name) == lookup(rest_a, name));
                assert(lookup(b, name) == lookup(rest_b, name));
            }
        }
        lemma_same_map(rest_a, rest_b);
        assert(a =~= seq![a[0]] + rest_a);
        assert(b =~= seq![b[0]] + rest_b);
    }
}

/// A finite map from axis names, kept in increasing order of name.
#[derive(Debug, Hash)]
pub struct AxisMap<T> {
    entries: Vec<(String, T)>,
}

impl<T> View for AxisMap<T> {
    type V = Entries<T>;

    closed spec fn view(&self) -> Entries<T> {
        Seq::new(self.entries@.len(), |i: int| (self.entries@[i].0@, self.entries@[i].1))
    }
}

impl<T> AxisMap<T> {
    /// Every map is in canonical form.
    #[verifier::type_invariant]
    pub closed spec fn canonical(&self) -> bool {
        increasing(self@)
    }

    /// What [`AxisMap::canonical`] says of the entries.
    pub proof fn lemma_canonical(&self)
        requires
            self.canonical(),
        ensures
            increasing(self@),
    {
    }
}

impl<T: Copy> AxisMap<T> {
    /// The map without entries.
    pub fn new() -> (map: Self)
        ensures
            map@ == Entries::<T>::empty(),
    {
        let map = AxisMap { entries: Vec::new() };
        assert(map@ =~= Entries::<T>::empty());
        map
    }

    /// The number of entries.
    pub fn len(&self) -> (len: usize)
        ensures
            len == self@.len(),
    {
        self.entries.len()
    }

    /// The name of the entry at `index`.
    pub fn name_at(&self, index: usize) -> (name: &String)
        requires
            index < self@.len(),
        ensures
            name@ == self@[index as int].0,
    {
        &self.entries[index].0
    }

    /// What the entry at `index` gives to its name.
    pub fn value_at(&self, index: usize) -> (value: T)
        requires
            index < self@.len(),
        ensures
            value == self@[index as int].1,
    {
        self.entries[index].1
    }

    /// What the map gives to `name`, if anything.
    pub fn get(&self, name: &str) -> (value: Option<T>)
        ensures
            value == lookup(self@, name@),
    {
        let mut i: usize = 0;
        assert(self@.skip(0) =~= self@);
        while i < self.entries.len()
            invariant
                i <= self@.len(),
                self@.len() == self.entries@.len(),
                lookup(self@, name@) == lookup(self@.skip(i as int), name@),
            decreases self.entries.len() - i,
        {
            assert(self@.skip(i as int).skip(1) =~= self@.skip(i + 1));
            assert(self@[i as int].0 == self.entries@[i as int].0@);
            proof {
                lemma_compare_names(self@[i as int].0, name@);
            }
            if compare_strs(self.entries[i].0.as_str(), name) == Order::Equal {
                return Some(self.entries[i].1);
            }
            i += 1;
        }
        None
    }

    /// Whether the map gives anything to `name`.
    pub fn has(&self, name: &str) -> (has: bool)
        ensures
            has == lookup(self@, name@).is_some(),
    {
        self.get(name).is_some()
    }

    /// Whether two maps name the same axes.
    pub fn same_axes<U: Copy>(&self, other: &AxisMap<U>) -> (same: bool)
        ensures
            same == (names_of(self@) == names_of(other@)),
    {
        if self.entries.len() != other.entries.len() {
            assert(names_of(self@).len() != names_of(other@).len());
            return false;
        }
        let mut i: usize = 0;
        while i < self.entries.len()
            invariant
                i <= self.entries@.len(),
                self.entries@.len() == other.entries@.len(),
                forall|k: int| 0 <= k < i ==> self@[k].0 == other@[k].0,
            decreases self.entries.len() - i,
        {
            proof {
                lemma_compare_names(self@[i as int].0, other@[i as int].0);
            }
            if compare_strs(self.entries[i].0.as_str(), other.entries[i].0.as_str()) != Order::Equal {
                assert(names_of(self@)[i as int] != names_of(other@)[i as int]);
                return false;
            }
            i += 1;
        }
        assert(names_of(self@) =~= names_of(other@));
        true
    }

    /// Gives `value` to the name of the entry at `index`.
    pub fn replace_value(&mut self, index: usize, value: T)
        requires
            index < old(self)@.len(),
        ensures
            final(self)@ == old(self)@.update(index as int, (old(self)@[index as int].0, value)),
    {
        proof {
            use_type_invariant(&*self);
            lemma_update_increasing(self@, index as int, value);
        }
        let ghost before = self@;
        let mut entries: Vec<(String, T)> = Vec::new();
        std::mem::swap(&mut entries, &mut self.entries);
        let name = entries[index].0.clone();
        entries.set(index, (name, value));
        assert(Seq::new(entries@.len(), |i: int| (entries@[i].0@, entries@[i].1)) =~= before.update(
            index as int,
            (before[index as int].0, value),
        ));
        std::mem::swap(&mut entries, &mut self.entries);
    }

    /// Gives `value` to `name`, in place of what the map gave to it before.
    pub fn insert(&mut self, name: String, value: T)
        ensures
            final(self)@ == put(old(self)@, name@, value),
    {
        proof {
            use_type_invariant(&*self);
        }
        let ghost before = self@;
        let mut entries: Vec<(String, T)> = Vec::new();
        std::mem::swap(&mut entries, &mut self.entries);
        let ghost view = |v: Vec<(String, T)>| Seq::new(v@.len(), |i: int| (v@[i].0@, v@[i].1));
        assert(view(entries) =~= before);
        let mut at: usize = 0;
        let mut found = false;
        while at < entries.len()
            invariant_except_break
                !found,
            invariant
                at <= entries.len(),
                before.len() == entries@.len(),
                forall|i: int|
                    0 <= i < before.len() ==> #[trigger] before[i] == (
                        entries@[i].0@,
                        entries@[i].1,
                    ),
                forall|i: int|
                    0 <= i < at ==> compare_names((#[trigger] before[i]).0, name@)
                        == Order::Less,
            ensures
                at <= entries.len(),
                forall|i: int|
                    0 <= i < at ==> compare_names((#[trigger] before[i]).0, name@)
                        == Order::Less,
                at < entries.len() ==> compare_names(before[at as int].0, name@) != Order::Less,
                found == (at < entries.len() && before[at as int].0 == name@),
            decreases entries.len() - at,
        {
            assert(before[at as int].0 == entries@[at as int].0@);
            proof {
                lemma_compare_names(before[at as int].0, name@);
            }
            match compare_strs(entries[at].0.as_str(), name.as_str()) {
                Order::Less => {
                    at += 1;
                },
                Order::Equal => {
                    found = true;
                    break ;
                },
                Order::Greater => {
                    break ;
                },
            }
        }
        proof {
            lemma_put_at(before, name@, value, at as int);
            lemma_put_increasing(before, name@, value, at as int);
        }
        if found {
            entries.set(at, (name, value));
            assert(view(entries) =~= before.update(at as int, (name@, value)));
        } else {
            entries.insert(at, (name, value));
            assert(view(entries) =~= before.insert(at as int, (name@, value)));
        }
        std::mem::swap(&mut entries, &mut self.entries);
        assert(self@ =~= put(before, name@, value));
    }
}

impl<T: Copy> Clone for AxisMap<T> {
    fn clone(&self) -> (copy: Self)
        ensures
            copy@ == self@,
    {
        proof {
            use_type_invariant(self);
        }
        let mut entries: Vec<(String, T)> = Vec::new();
        let mut i: usize = 0;
        while i < self.entries.len()
            invariant
                i <= self.entries@.len(),
                entries@.len() == i,
                forall|k: int|
                    0 <= k < i ==> (#[trigger] entries@[k]).0@ == self.entries@[k].0@
                        && entries@[k].1 == self.entries@[k].1,
            decreases self.entries.len() - i,
        {
            entries.push((self.entries[i].0.clone(), self.entries[i].1));
            i += 1;
        }
        assert(Seq::new(entries@.len(), |i: int| (entries@[i].0@, entries@[i].1)) =~= self@);
        let copy = AxisMap { entries };
        assert(copy@ =~= self@);
        copy
    }
}

} // verus!
