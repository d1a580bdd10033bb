//! What holds of every model: the laws that the parts of this crate obey
//! together.

use crate::axes::{
    increasing, lemma_lookup_at, lemma_lookup_found, lemma_lookup_put, lemma_put_keeps_order,
    lemma_same_map, lookup, Entries,
};
use crate::coords::{all_zero, coordinate, NormalizedCoord, NormalizedLocation};
use crate::order::{compare_names, Order};
use crate::sorting::{
    compare_keys, in_key_order, known_names, lemma_compare_keys, magnitude, rank_of, signum, sort_key,
    unknown_names,
};
use crate::regions::{
    axis_max, axis_min, clip_tent, clipped, clips, influence_of, overlaps, overlaps_at, region_for,
    spec_master_influence, spec_regions_for, tent_for,
};
use crate::tent::{blocked, lemma_scalar, scalar, Tent};
use crate::variations::{
    all_ordered, default_for, delta_at, expanded, master_deltas, share, supplied, unordered_axes,
    weights_at, WeightRow,
};
use crate::vector::{Point, Vector};
use crate::weight::{denominator_of, lemma_product_bounds, numerator_of, Fraction, Weight};
use vstd::prelude::*;

verus! {

/// The default location is in canonical form, and it is at zero on exactly
/// the axes of the axis order.
pub proof fn lemma_default_for(axis_order: Seq<Seq<char>>, name: Seq<char>)
    ensures
        increasing(default_for(axis_order)),
        lookup(default_for(axis_order), name) == if axis_order.contains(name) {
            Some(NormalizedCoord(0))
        } else {
            None
        },
    decreases axis_order.len(),
{
    if axis_order.len() > 0 {
        let front = axis_order.drop_last();
        lemma_default_for(front, name);
        lemma_put_keeps_order(default_for(front), axis_order.last(), NormalizedCoord(0));
        lemma_lookup_put(default_for(front), axis_order.last(), NormalizedCoord(0), name);
        if axis_order.contains(name) && name != axis_order.last() {
            let i = choose|i: int| 0 <= i < axis_order.len() && axis_order[i] == name;
            assert(front[i] == name);
        }
        if front.contains(name) {
            let i = choose|i: int| 0 <= i < front.len() && front[i] == name;
            assert(axis_order[i] == name);
        }
        if name == axis_order.last() {
            assert(axis_order[axis_order.len() - 1] == name);
        }
    }
}

/// A location that was completed over the axis order is in canonical form. It
/// agrees with the location that it came from on the axes that that one
/// names, and it is at zero on the other axes of the axis order.
pub proof fn lemma_expanded(
    axis_order: Seq<Seq<char>>,
    location: Entries<NormalizedCoord>,
    name: Seq<char>,
)
    requires
        increasing(location),
    ensures
        increasing(expanded(axis_order, location)),
        lookup(expanded(axis_order, location), name) == match lookup(location, name) {
            Some(coord) => Some(coord),
            None => if axis_order.contains(name) {
                Some(NormalizedCoord(0))
            } else {
                None
            },
        },
    decreases axis_order.len(),
{
    if axis_order.len() > 0 {
        let front = axis_order.drop_last();
        lemma_expanded(front, location, name);
        lemma_expanded(front, location, axis_order.last());
        let sofar = expanded(front, location);
        if lookup(sofar, axis_order.last()).is_none() {
            lemma_put_keeps_order(sofar, axis_order.last(), NormalizedCoord(0));
            lemma_lookup_put(sofar, axis_order.last(), NormalizedCoord(0), name);
        }
        if axis_order.contains(name) && name != axis_order.last() {
            let i = choose|i: int| 0 <= i < axis_order.len() && axis_order[i] == name;
            assert(front[i] == name);
        }
        if front.contains(name) {
            let i = choose|i: int| 0 <= i < front.len() && front[i] == name;
            assert(axis_order[i] == name);
        }
        if name == axis_order.last() {
            assert(axis_order[axis_order.len() - 1] == name);
        }
    }
}

/// A location names only axes of the axis order exactly when
/// [`unordered_axes`] finds none.
pub proof fn lemma_unordered_axes(axis_order: Seq<Seq<char>>, location: Entries<NormalizedCoord>)
    ensures
        unordered_axes(axis_order, location).len() == 0 <==> forall|i: int|
            0 <= i < location.len() ==> axis_order.contains((#[trigger] location[i]).0),
    decreases location.len(),
{
    if location.len() > 0 {
        let front = location.drop_last();
        lemma_unordered_axes(axis_order, front);
        if unordered_axes(axis_order, location).len() == 0 {
            assert forall|i: int| 0 <= i < location.len() implies axis_order.contains(
                (#[trigger] location[i]).0,
            ) by {
                if i < front.len() {
                    assert(front[i] == location[i]);
                }
            }
        } else if axis_order.contains(location.last().0) {
            let i = choose|i: int|
                0 <= i < front.len() && !axis_order.contains((#[trigger] front[i]).0);
            assert(front[i] == location[i]);
        }
    }
}

/// The rank of a location is zero exactly when it is at zero on every axis.
pub proof fn lemma_rank_zero(location: Entries<NormalizedCoord>)
    ensures
        rank_of(location) == 0 <==> all_zero(location),
    decreases location.len(),
{
    if location.len() > 0 {
        let front = location.drop_last();
        lemma_rank_zero(front);
        if rank_of(location) == 0 {
            assert forall|i: int| 0 <= i < location.len() implies (#[trigger] location[i]).1@ == 0 by {
                if i < front.len() {
                    assert(front[i] == location[i]);
                }
            }
        }
        if all_zero(location) {
            assert forall|i: int| 0 <= i < front.len() implies (#[trigger] front[i]).1@ == 0 by {
                assert(front[i] == location[i]);
            }
            assert(location[location.len() - 1].1@ == 0);
        }
    }
}

/// The default location comes first.
///
/// Let `masters` be the locations of a model that was built from `inputs`
/// with the axis order `axis_order`: the inputs, each completed over the axis
/// order, in the order of their sort keys. If the default location is among
/// them, it is the first of them.
pub proof fn law_default_first(
    axis_order: Seq<Seq<char>>,
    points: Set<(Seq<char>, int)>,
    inputs: Seq<Entries<NormalizedCoord>>,
    masters: Seq<Entries<NormalizedCoord>>,
)
    requires
        forall|k: int| 0 <= k < inputs.len() ==> increasing(#[trigger] inputs[k]),
        all_ordered(axis_order, inputs, inputs.len() as int),
        forall|x: Entries<NormalizedCoord>|
            masters.contains(x) ==> exists|k: int|
                0 <= k < inputs.len() && x == expanded(axis_order, #[trigger] inputs[k]),
        in_key_order(axis_order, points, masters),
        masters.contains(default_for(axis_order)),
    ensures
        masters[0] == default_for(axis_order),
{
    let default = default_for(axis_order);
    let at = choose|at: int| 0 <= at < masters.len() && masters[at] == default;
    let first = masters[0];
    if at > 0 {
        // the first master has a sort key that is no greater than that of the
        // default, so its rank is zero too
        assert(compare_keys(
            sort_key(axis_order, points, masters[0]),
            sort_key(axis_order, points, masters[at]),
        ) != Order::Greater);
        reveal(compare_keys);
        reveal(sort_key);
        assert(all_zero(default)) by {
            assert forall|i: int| 0 <= i < default.len() implies (#[trigger] default[i]).1@ == 0 by {
                lemma_default_for(axis_order, default[i].0);
                lemma_lookup_at(default, i);
            }
        }
        lemma_rank_zero(default);
        lemma_rank_zero(first);
        assert(rank_of(first) == 0);
        // it names the axes of the axis order, as the default does
        assert(masters.contains(first));
        let k = choose|k: int|
            0 <= k < inputs.len() && first == expanded(axis_order, #[trigger] inputs[k]);
        lemma_unordered_axes(axis_order, inputs[k]);
        assert forall|name: Seq<char>| lookup(first, name) == lookup(default, name) by {
            lemma_expanded(axis_order, inputs[k], name);
            lemma_default_for(axis_order, name);
            lemma_lookup_found(inputs[k], name);
            lemma_lookup_found(first, name);
            if lookup(first, name).is_some() {
                let value = lookup(first, name).unwrap();
                let i = choose|i: int| 0 <= i < first.len() && #[trigger] first[i] == (name, value);
                assert(first[i].1@ == 0);
            }
        }
        lemma_expanded(axis_order, inputs[k], first[0].0);
        lemma_default_for(axis_order, first[0].0);
        lemma_same_map(first, default);
    }
}

/// The axes of the axis order that a sort key lists are those on which the
/// location is away from zero.
pub proof fn lemma_known_names(
    axis_order: Seq<Seq<char>>,
    location: Entries<NormalizedCoord>,
    name: Seq<char>,
)
    ensures
        known_names(axis_order, location).contains(name) <==> axis_order.contains(name)
            && coordinate(location, name) != 0,
    decreases axis_order.len(),
{
    if axis_order.len() > 0 {
        let front = axis_order.drop_last();
        let last = axis_order.last();
        lemma_known_names(front, location, name);
        let listed = known_names(axis_order, location);
        let before = known_names(front, location);
        if axis_order.contains(name) && name != last {
            let i = choose|i: int| 0 <= i < axis_order.len() && axis_order[i] == name;
            assert(front[i] == name);
        }
        if front.contains(name) {
            let i = choose|i: int| 0 <= i < front.len() && front[i] == name;
            assert(axis_order[i] == name);
        }
        assert(axis_order[axis_order.len() - 1] == last);
        if coordinate(location, last) != 0 {
            assert(listed == before.push(last));
            if before.contains(name) {
                let i = choose|i: int| 0 <= i < before.len() && before[i] == name;
                assert(listed[i] == name);
            }
            if listed.contains(name) {
                let i = choose|i: int| 0 <= i < listed.len() && listed[i] == name;
                if i < before.len() {
                    assert(before[i] == name);
                }
            }
            if name == last {
                assert(listed[listed.len() - 1] == name);
            }
        }
    }
}

/// The other axes that a sort key lists are those that the axis order does
/// not hold and on which the location is away from zero.
pub proof fn lemma_unknown_names(
    axis_order: Seq<Seq<char>>,
    location: Entries<NormalizedCoord>,
    name: Seq<char>,
)
    ensures
        unknown_names(axis_order, location).contains(name) <==> !axis_order.contains(name)
            && exists|i: int|
            0 <= i < location.len() && (#[trigger] location[i]).0 == name && location[i].1@ != 0,
    decreases location.len(),
{
    if location.len() > 0 {
        let front = location.drop_last();
        let (last, coord) = location.last();
        lemma_unknown_names(axis_order, front, name);
        let listed = unknown_names(axis_order, location);
        let before = unknown_names(axis_order, front);
        if exists|i: int|
            0 <= i < front.len() && (#[trigger] front[i]).0 == name && front[i].1@ != 0 {
            let i = choose|i: int|
                0 <= i < front.len() && (#[trigger] front[i]).0 == name && front[i].1@ != 0;
            assert(location[i] == front[i]);
        }
        if exists|i: int|
            0 <= i < location.len() && (#[trigger] location[i]).0 == name && location[i].1@ != 0 {
            let i = choose|i: int|
                0 <= i < location.len() && (#[trigger] location[i]).0 == name && location[i].1@
                    != 0;
            if i < front.len() {
                assert(front[i] == location[i]);
            }
        }
        assert(location[location.len() - 1] == (last, coord));
        if coord@ != 0 && !axis_order.contains(last) {
            assert(listed == before.push(last));
            if before.contains(name) {
                let i = choose|i: int| 0 <= i < before.len() && before[i] == name;
                assert(listed[i] == name);
            }
            if listed.contains(name) {
                let i = choose|i: int| 0 <= i < listed.len() && listed[i] == name;
                if i < before.len() {
                    assert(before[i] == name);
                }
            }
            if name == last {
                assert(listed[listed.len() - 1] == name);
            }
        }
    }
}

/// A sort key lists exactly the axes on which the location is away from zero.
pub proof fn lemma_ordered_axes(
    axis_order: Seq<Seq<char>>,
    location: Entries<NormalizedCoord>,
    name: Seq<char>,
)
    requires
        increasing(location),
    ensures
        (known_names(axis_order, location) + unknown_names(axis_order, location)).contains(name)
            <==> coordinate(location, name) != 0,
{
    let known = known_names(axis_order, location);
    let unknown = unknown_names(axis_order, location);
    let ordered = known + unknown;
    lemma_known_names(axis_order, location, name);
    lemma_unknown_names(axis_order, location, name);
    lemma_lookup_found(location, name);
    if exists|i: int|
        0 <= i < location.len() && (#[trigger] location[i]).0 == name && location[i].1@ != 0 {
        let i = choose|i: int|
            0 <= i < location.len() && (#[trigger] location[i]).0 == name && location[i].1@ != 0;
        lemma_lookup_at(location, i);
    }
    if coordinate(location, name) != 0 {
        let coord = lookup(location, name).unwrap();
        let i = choose|i: int| 0 <= i < location.len() && #[trigger] location[i] == (name, coord);
        assert(location[i].0 == name && location[i].1@ != 0);
    }
    if ordered.contains(name) {
        let i = choose|i: int| 0 <= i < ordered.len() && ordered[i] == name;
        if i < known.len() {
            assert(known[i] == name);
        } else {
            assert(unknown[i - known.len()] == name);
        }
    }
    if known.contains(name) {
        let i = choose|i: int| 0 <= i < known.len() && known[i] == name;
        assert(ordered[i] == name);
    }
    if unknown.contains(name) {
        let i = choose|i: int| 0 <= i < unknown.len() && unknown[i] == name;
        assert(ordered[known.len() + i] == name);
    }
}

/// Two locations name the same axes.
pub open spec fn same_axes(a: Entries<NormalizedCoord>, b: Entries<NormalizedCoord>) -> bool {
    forall|name: Seq<char>| lookup(a, name).is_some() == lookup(b, name).is_some()
}

/// The sort key tells locations apart.
///
/// Two locations that name the same axes and have the same sort key are the
/// same location.
pub proof fn law_sort_key_decides(
    axis_order: Seq<Seq<char>>,
    points: Set<(Seq<char>, int)>,
    a: Entries<NormalizedCoord>,
    b: Entries<NormalizedCoord>,
)
    requires
        increasing(a),
        increasing(b),
        same_axes(a, b),
        sort_key(axis_order, points, a) == sort_key(axis_order, points, b),
    ensures
        a == b,
{
    reveal(sort_key);
    let key_a = sort_key(axis_order, points, a);
    let key_b = sort_key(axis_order, points, b);
    let ordered = key_a.ordered_axes;
    assert(ordered == known_names(axis_order, a) + unknown_names(axis_order, a));
    assert(key_b.ordered_axes == known_names(axis_order, b) + unknown_names(axis_order, b));
    assert forall|name: Seq<char>| lookup(a, name) == lookup(b, name) by {
        lemma_ordered_axes(axis_order, a, name);
        lemma_ordered_axes(axis_order, b, name);
        assert(lookup(a, name).is_some() == lookup(b, name).is_some());
        if ordered.contains(name) {
            let i = choose|i: int| 0 <= i < ordered.len() && ordered[i] == name;
            assert(key_a.axis_value_signs[i] == signum(coordinate(a, name)));
            assert(key_b.axis_value_signs[i] == signum(coordinate(b, name)));
            assert(key_a.axis_value_abs[i] == magnitude(coordinate(a, name)));
            assert(key_b.axis_value_abs[i] == magnitude(coordinate(b, name)));
            assert(coordinate(a, name) == coordinate(b, name));
        }
        assert(coordinate(a, name) == coordinate(b, name));
    }
    lemma_same_map(a, b);
}

/// Each location of the sequence has a smaller sort key than those behind it.
pub open spec fn strictly_in_key_order(
    axis_order: Seq<Seq<char>>,
    points: Set<(Seq<char>, int)>,
    locations: Seq<Entries<NormalizedCoord>>,
) -> bool {
    forall|a: int, b: int|
        0 <= a < b < locations.len() ==> compare_keys(
            sort_key(axis_order, points, #[trigger] locations[a]),
            sort_key(axis_order, points, #[trigger] locations[b]),
        ) == Order::Less
}

/// The order of the masters is strict.
///
/// Locations that name the same axes, none of them twice, and that stand in
/// the order of their sort keys stand in a strict order: no two share a sort
/// key, so that there is only one order in which they can stand.
pub proof fn law_strict_order(
    axis_order: Seq<Seq<char>>,
    points: Set<(Seq<char>, int)>,
    masters: Seq<Entries<NormalizedCoord>>,
)
    requires
        forall|k: int| 0 <= k < masters.len() ==> increasing(#[trigger] masters[k]),
        forall|i: int, j: int|
            0 <= i < masters.len() && 0 <= j < masters.len() ==> same_axes(
                #[trigger] masters[i],
                #[trigger] masters[j],
            ),
        masters.no_duplicates(),
        in_key_order(axis_order, points, masters),
    ensures
        strictly_in_key_order(axis_order, points, masters),
{
    assert forall|a: int, b: int| 0 <= a < b < masters.len() implies compare_keys(
        sort_key(axis_order, points, #[trigger] masters[a]),
        sort_key(axis_order, points, #[trigger] masters[b]),
    ) == Order::Less by {
        let key_a = sort_key(axis_order, points, masters[a]);
        let key_b = sort_key(axis_order, points, masters[b]);
        lemma_compare_keys(key_a, key_b);
        if key_a == key_b {
            assert(same_axes(masters[a], masters[b]));
            law_sort_key_decides(axis_order, points, masters[a], masters[b]);
        }
    }
}

/// A location that names only axes of the axis order names, once completed,
/// exactly the axes of the axis order.
pub proof fn lemma_completed(
    axis_order: Seq<Seq<char>>,
    location: Entries<NormalizedCoord>,
    name: Seq<char>,
)
    requires
        increasing(location),
        unordered_axes(axis_order, location).len() == 0,
    ensures
        increasing(expanded(axis_order, location)),
        lookup(expanded(axis_order, location), name).is_some() == axis_order.contains(name),
{
    lemma_expanded(axis_order, location, name);
    lemma_unordered_axes(axis_order, location);
    lemma_lookup_found(location, name);
    if lookup(location, name).is_some() {
        let coord = lookup(location, name).unwrap();
        let i = choose|i: int| 0 <= i < location.len() && #[trigger] location[i] == (name, coord);
        assert(axis_order.contains(location[i].0));
    }
}

/// The masters of a model stand in a strict order.
///
/// Let `masters` be the locations of a model that was built from `inputs`
/// with the axis order `axis_order`: the inputs, each completed over the axis
/// order and none twice, in the order of their sort keys. Then each has a
/// smaller sort key than those behind it, so that the order of the masters
/// does not depend on the order of the inputs.
pub proof fn law_masters_strict(
    axis_order: Seq<Seq<char>>,
    points: Set<(Seq<char>, int)>,
    inputs: Seq<Entries<NormalizedCoord>>,
    masters: Seq<Entries<NormalizedCoord>>,
)
    requires
        forall|k: int| 0 <= k < inputs.len() ==> increasing(#[trigger] inputs[k]),
        all_ordered(axis_order, inputs, inputs.len() as int),
        forall|x: Entries<NormalizedCoord>|
            masters.contains(x) ==> exists|k: int|
                0 <= k < inputs.len() && x == expanded(axis_order, #[trigger] inputs[k]),
        masters.no_duplicates(),
        in_key_order(axis_order, points, masters),
    ensures
        strictly_in_key_order(axis_order, points, masters),
{
    assert forall|i: int| 0 <= i < masters.len() implies increasing(#[trigger] masters[i]) && forall|
        name: Seq<char>,
    |
        lookup(masters[i], name).is_some() == axis_order.contains(name) by {
        assert(masters.contains(masters[i]));
        let k = choose|k: int|
            0 <= k < inputs.len() && masters[i] == expanded(axis_order, #[trigger] inputs[k]);
        lemma_completed(axis_order, inputs[k], Seq::empty());
        assert forall|name: Seq<char>|
            lookup(masters[i], name).is_some() == axis_order.contains(name) by {
            lemma_completed(axis_order, inputs[k], name);
        }
    }
    assert forall|i: int, j: int| 0 <= i < masters.len() && 0 <= j < masters.len() implies same_axes(
        #[trigger] masters[i],
        #[trigger] masters[j],
    ) by {
        assert forall|name: Seq<char>|
            lookup(masters[i], name).is_some() == lookup(masters[j], name).is_some() by {
            assert(lookup(masters[i], name).is_some() == axis_order.contains(name));
            assert(lookup(masters[j], name).is_some() == axis_order.contains(name));
        }
    }
    law_strict_order(axis_order, points, masters);
}

/// No earlier master has weight at the first master: the first line of every
/// table of delta weights is empty.
pub proof fn law_first_row_empty(influence: Seq<Entries<Tent>>, location: Entries<NormalizedCoord>)
    ensures
        weights_at(influence, location, 0) == WeightRow::empty(),
{
}

/// A region without axes has full influence everywhere: its weight is one.
pub proof fn law_empty_region(location: Entries<NormalizedCoord>)
    ensures
        scalar(Entries::<Tent>::empty(), location) == Seq::<Fraction>::empty(),
{
}

/// A region whose tents are all the tent that is always on has full influence
/// everywhere: its weight is one.
pub proof fn law_always_on(region: Entries<Tent>, location: Entries<NormalizedCoord>)
    requires
        forall|i: int| 0 <= i < region.len() ==> (#[trigger] region[i]).1.always_on(),
    ensures
        scalar(region, location) == Seq::<Fraction>::empty(),
    decreases region.len(),
{
    if region.len() > 0 {
        let front = region.drop_last();
        assert forall|i: int| 0 <= i < front.len() implies (#[trigger] front[i]).1.always_on() by {
            assert(front[i] == region[i]);
        }
        law_always_on(front, location);
        assert(region.last() == region[region.len() - 1]);
        assert(!blocked(front, location));
    }
    assert(!blocked(region, location));
}

/// The influence of a region is a number from zero to one, and it is zero
/// exactly where one of the tents of the region excludes the location.
pub proof fn law_weight_bounds(region: Entries<Tent>, location: Entries<NormalizedCoord>)
    ensures
        denominator_of(scalar(region, location)) > 0,
        numerator_of(scalar(region, location)) <= denominator_of(scalar(region, location)),
        numerator_of(scalar(region, location)) == 0 <==> blocked(region, location),
{
    lemma_scalar(region, location);
    lemma_product_bounds(scalar(region, location));
}

/// The axes that a sort key lists behind those of the axis order stand in the
/// order of their names.
pub proof fn law_unknown_axes_sorted(
    axis_order: Seq<Seq<char>>,
    location: Entries<NormalizedCoord>,
)
    requires
        increasing(location),
    ensures
        forall|a: int, b: int|
            0 <= a < b < unknown_names(axis_order, location).len() ==> compare_names(
                #[trigger] unknown_names(axis_order, location)[a],
                #[trigger] unknown_names(axis_order, location)[b],
            ) == Order::Less,
    decreases location.len(),
{
    if location.len() > 0 {
        let front = location.drop_last();
        let listed = unknown_names(axis_order, location);
        let before = unknown_names(axis_order, front);
        assert(increasing(front)) by {
            assert forall|a: int, b: int| 0 <= a < b < front.len() implies compare_names(
                #[trigger] front[a].0,
                #[trigger] front[b].0,
            ) == Order::Less by {
                assert(front[a] == location[a]);
                assert(front[b] == location[b]);
            }
        }
        law_unknown_axes_sorted(axis_order, front);
        let last = location.len() - 1;
        assert forall|a: int, b: int| 0 <= a < b < listed.len() implies compare_names(
            #[trigger] listed[a],
            #[trigger] listed[b],
        ) == Order::Less by {
            if b < before.len() {
                assert(listed[a] == before[a] && listed[b] == before[b]);
            } else {
                // the name at `a` is one of the front, all of which are smaller
                // than the last name
                assert(before.contains(before[a]));
                lemma_unknown_names(axis_order, front, before[a]);
                let i = choose|i: int|
                    0 <= i < front.len() && (#[trigger] front[i]).0 == before[a] && front[i].1@ != 0;
                assert(location[i] == front[i]);
                assert(compare_names(location[i].0, location[last].0) == Order::Less);
            }
        }
    }
}

/// Taking an earlier master into account changes neither the axes of a region
/// nor the peaks of its tents.
pub proof fn law_clip_keeps_peaks(region: Entries<Tent>, earlier: Entries<Tent>, i: int)
    requires
        0 <= i < region.len(),
    ensures
        clipped(region, earlier).len() == region.len(),
        clipped(region, earlier)[i].0 == region[i].0,
        clipped(region, earlier)[i].1.peak == region[i].1.peak,
{
}

/// Taking an earlier master into account leaves valid tents valid.
pub proof fn law_clip_keeps_valid(region: Entries<Tent>, earlier: Entries<Tent>, i: int)
    requires
        0 <= i < region.len(),
        region[i].1.valid(),
    ensures
        clipped(region, earlier)[i].1.valid(),
{
    if crate::axes::names_of(region) == crate::axes::names_of(earlier) && overlaps(region, earlier) {
        assert(overlaps_at(region[i].1, earlier[i].1.peak@));
    }
}

/// The least and greatest coordinate of an axis enclose zero and every
/// coordinate that a location has on the axis.
pub proof fn lemma_axis_extent(
    locations: Seq<Entries<NormalizedCoord>>,
    name: Seq<char>,
    k: int,
)
    ensures
        axis_min(locations, name)@ <= 0 <= axis_max(locations, name)@,
        0 <= k < locations.len() ==> match lookup(locations[k], name) {
            Some(coord) => axis_min(locations, name)@ <= coord@ <= axis_max(locations, name)@,
            None => true,
        },
    decreases locations.len(),
{
    if locations.len() > 0 {
        lemma_axis_extent(locations.drop_last(), name, k);
        if 0 <= k < locations.len() - 1 {
            assert(locations.drop_last()[k] == locations[k]);
        }
    }
}

/// Every tent of a model is valid.
///
/// The regions that are made for the masters hold valid tents only, and they
/// stay valid when the earlier masters are taken into account. So no tent of
/// a model is ever passed over when influence is computed.
pub proof fn law_tents_valid(locations: Seq<Entries<NormalizedCoord>>, master: int, axis: int)
    requires
        forall|k: int| 0 <= k < locations.len() ==> increasing(#[trigger] locations[k]),
        0 <= master < locations.len(),
        0 <= axis < locations[master].len(),
    ensures
        spec_master_influence(spec_regions_for(locations))[master].len() == locations[master].len(),
        spec_master_influence(spec_regions_for(locations))[master][axis].0
            == locations[master][axis].0,
        spec_master_influence(spec_regions_for(locations))[master][axis].1.peak
            == locations[master][axis].1,
        spec_master_influence(spec_regions_for(locations))[master][axis].1.valid(),
{
    let regions = spec_regions_for(locations);
    let location = locations[master];
    let (name, coord) = location[axis];
    lemma_lookup_at(location, axis);
    lemma_axis_extent(locations, name, master);
    assert(regions[master] == region_for(locations, location));
    assert(regions[master][axis].1 == tent_for(locations, name, coord));
    assert(regions[master][axis].1.valid());
    lemma_influence_valid(regions, master, master, axis);
}

/// The tent on one axis of a region keeps its axis and its peak and stays
/// valid, however many earlier regions are taken into account.
proof fn lemma_influence_valid(regions: Seq<Entries<Tent>>, index: int, upto: int, axis: int)
    requires
        0 <= index < regions.len(),
        0 <= axis < regions[index].len(),
        regions[index][axis].1.valid(),
    ensures
        influence_of(regions, index, upto).len() == regions[index].len(),
        influence_of(regions, index, upto)[axis].0 == regions[index][axis].0,
        influence_of(regions, index, upto)[axis].1.peak == regions[index][axis].1.peak,
        influence_of(regions, index, upto)[axis].1.valid(),
    decreases upto,
{
    if upto > 0 {
        lemma_influence_valid(regions, index, upto - 1, axis);
        let sofar = influence_of(regions, index, upto - 1);
        law_clip_keeps_peaks(sofar, regions[upto - 1], axis);
        law_clip_keeps_valid(sofar, regions[upto - 1], axis);
    }
}

/// What the deltas of a line of delta weights add up to, on top of `start`:
/// `start`, plus the share of each master of `row` that has deltas.
pub open spec fn with_shares<V: Vector>(
    start: V,
    row: Seq<(usize, Weight)>,
    earlier: Seq<Option<Seq<V>>>,
    index: int,
) -> V
    decreases row.len(),
{
    if row.len() == 0 {
        start
    } else {
        let sofar = with_shares(start, row.drop_last(), earlier, index);
        let (master, weight) = row.last();
        if master < earlier.len() && earlier[master as int].is_some() && index
            < earlier[master as int].unwrap().len() {
            sofar.spec_plus(share(earlier[master as int].unwrap()[index], weight))
        } else {
            sofar
        }
    }
}

/// The value that deltas stand for: the zero vector, plus the delta of the
/// master, plus the share of each earlier master.
pub open spec fn rebuilt<V: Vector>(
    delta: V,
    row: Seq<(usize, Weight)>,
    earlier: Seq<Option<Seq<V>>>,
    index: int,
) -> V {
    with_shares(V::spec_zero().spec_plus(delta), row, earlier, index)
}

/// Adding the shares to a sum is adding them to one of its summands.
proof fn lemma_with_shares<V: Vector>(
    a: V,
    b: V,
    row: Seq<(usize, Weight)>,
    earlier: Seq<Option<Seq<V>>>,
    index: int,
)
    ensures
        with_shares(a, row, earlier, index).spec_plus(b) == with_shares(
            a.spec_plus(b),
            row,
            earlier,
            index,
        ),
    decreases row.len(),
{
    if row.len() > 0 {
        lemma_with_shares(a, b, row.drop_last(), earlier, index);
        let (master, weight) = row.last();
        if master < earlier.len() && earlier[master as int].is_some() && index
            < earlier[master as int].unwrap().len() {
            let s = share(earlier[master as int].unwrap()[index], weight);
            let sofar = with_shares(a, row.drop_last(), earlier, index);
            // (sofar + s) + b == (sofar + b) + s
            V::law_associative(sofar, s, b);
            V::law_commutative(s, b);
            V::law_associative(sofar, b, s);
        }
    }
}

/// Deltas give back what they were computed from.
///
/// The delta of a master is its value less the shares of the earlier masters.
/// Adding those shares to the delta, starting from the zero vector, gives the
/// value back exactly.
pub proof fn law_round_trip<V: Vector>(
    start: V,
    row: Seq<(usize, Weight)>,
    earlier: Seq<Option<Seq<V>>>,
    index: int,
)
    ensures
        rebuilt(delta_at(start, row, earlier, index), row, earlier, index) == start,
    decreases row.len(),
{
    let delta = delta_at(start, row, earlier, index);
    V::law_zero(delta);
    if row.len() > 0 {
        let front = row.drop_last();
        let before = delta_at(start, front, earlier, index);
        law_round_trip(start, front, earlier, index);
        V::law_zero(before);
        let (master, weight) = row.last();
        if master < earlier.len() && earlier[master as int].is_some() && index
            < earlier[master as int].unwrap().len() {
            let s = share(earlier[master as int].unwrap()[index], weight);
            // delta == before - s, so with the shares of the front and then s
            // added, delta gives what before gives with the shares of the front
            lemma_with_shares(delta, s, front, earlier, index);
            V::law_minus(before, s);
        }
    }
}

/// The deltas of a model give back the points that they were computed from.
///
/// For every master that has points and every place in them: the delta that
/// the model computes, with the shares of the earlier masters added to it, is
/// the displacement of the point from the origin.
pub proof fn law_deltas_round_trip<P: Point>(
    table: Seq<Seq<(usize, Weight)>>,
    locations: Seq<Entries<NormalizedCoord>>,
    point_seqs: Seq<(NormalizedLocation, Vec<P>)>,
    master: int,
    index: int,
)
    requires
        0 <= master < locations.len(),
        supplied(point_seqs, locations[master]).is_some(),
        0 <= index < supplied(point_seqs, locations[master]).unwrap().len(),
    ensures
        ({
            let earlier = master_deltas::<P>(table, locations, point_seqs, master);
            let deltas = master_deltas::<P>(table, locations, point_seqs, master + 1).last();
            let point = supplied(point_seqs, locations[master]).unwrap()[index];
            &&& deltas.is_some()
            &&& deltas.unwrap().len() == supplied(point_seqs, locations[master]).unwrap().len()
            &&& rebuilt(deltas.unwrap()[index], table[master], earlier, index) == point.spec_minus(
                P::spec_origin(),
            )
        }),
{
    let earlier = master_deltas::<P>(table, locations, point_seqs, master);
    let point = supplied(point_seqs, locations[master]).unwrap()[index];
    law_round_trip(point.spec_minus(P::spec_origin()), table[master], earlier, index);
}

} // verus!
