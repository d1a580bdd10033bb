//! From the locations of the masters to the region of influence of each.

use crate::axes::{
    increasing, lemma_increasing_take, lemma_lookup_found, lemma_lookup_push, lemma_lookup_put,
    lemma_put_last, lookup, names_of, AxisMap, Entries,
};
use crate::order::{compare_names, lemma_compare_names, Order};
use crate::coords::{views, NormalizedCoord, NormalizedLocation};
use crate::tent::{Tent, VariationRegion};
use vstd::prelude::*;

verus! {

/// The regions of a sequence, as mathematical values.
pub open spec fn region_views(regions: Seq<VariationRegion>) -> Seq<Entries<Tent>> {
    Seq::new(regions.len(), |i: int| regions[i]@)
}

/// The least coordinate that any of the locations has on the axis `name`, or
/// zero if none is less than zero.
pub open spec fn axis_min(locations: Seq<Entries<NormalizedCoord>>, name: Seq<char>) -> NormalizedCoord
    decreases locations.len(),
{
    if locations.len() == 0 {
        NormalizedCoord(0)
    } else {
        let least = axis_min(locations.drop_last(), name);
        match lookup(locations.last(), name) {
            Some(coord) => if coord@ < least@ {
                coord
            } else {
                least
            },
            None => least,
        }
    }
}

/// The greatest coordinate that any of the locations has on the axis `name`,
/// or zero if none is greater than zero.
pub open spec fn axis_max(locations: Seq<Entries<NormalizedCoord>>, name: Seq<char>) -> NormalizedCoord
    decreases locations.len(),
{
    if locations.len() == 0 {
        NormalizedCoord(0)
    } else {
        let greatest = axis_max(locations.drop_last(), name);
        match lookup(locations.last(), name) {
            Some(coord) => if coord@ > greatest@ {
                coord
            } else {
                greatest
            },
            None => greatest,
        }
    }
}

/// The tent of a master at `coord` on the axis `name`, before any clipping:
/// the tent that is always on where the master is at zero on the axis, and
/// elsewhere the tent with its peak at the master, which reaches from zero to
/// the farthest master on the same side.
pub open spec fn tent_for(
    locations: Seq<Entries<NormalizedCoord>>,
    name: Seq<char>,
    coord: NormalizedCoord,
) -> Tent {
    if coord@ == 0 {
        Tent::spec_new(NormalizedCoord(0), coord, NormalizedCoord(0))
    } else {
        Tent::spec_new(axis_min(locations, name), coord, axis_max(locations, name))
    }
}

/// The region of the master at `location`, before any clipping: a tent for
/// each axis that the location names.
pub open spec fn region_for(
    locations: Seq<Entries<NormalizedCoord>>,
    location: Entries<NormalizedCoord>,
) -> Entries<Tent> {
    Seq::new(
        location.len(),
        |i: int| (location[i].0, tent_for(locations, location[i].0, location[i].1)),
    )
}

/// The regions of the masters at `locations`, before any clipping.
pub open spec fn spec_regions_for(locations: Seq<Entries<NormalizedCoord>>) -> Seq<Entries<Tent>> {
    Seq::new(locations.len(), |k: int| region_for(locations, locations[k]))
}

/// The least and greatest coordinate that a map of extents holds for `name`,
/// or zero for both.
spec fn extent(
    extents: Entries<(NormalizedCoord, NormalizedCoord)>,
    name: Seq<char>,
) -> (NormalizedCoord, NormalizedCoord) {
    match lookup(extents, name) {
        Some(pair) => pair,
        None => (NormalizedCoord(0), NormalizedCoord(0)),
    }
}

/// The map of extents holds, for every axis, the least and greatest
/// coordinate of the locations.
spec fn extents_of(
    extents: Entries<(NormalizedCoord, NormalizedCoord)>,
    locations: Seq<Entries<NormalizedCoord>>,
) -> bool {
    forall|name: Seq<char>| #[trigger]
        extent(extents, name) == (axis_min(locations, name), axis_max(locations, name))
}

/// The least and greatest coordinate on each axis that any location names.
fn axis_extents(locations: &[NormalizedLocation]) -> (extents: AxisMap<
    (NormalizedCoord, NormalizedCoord),
>)
    ensures
        extents_of(extents@, views(locations@)),
{
    let mut extents: AxisMap<(NormalizedCoord, NormalizedCoord)> = AxisMap::new();
    let ghost all = views(locations@);
    let mut k: usize = 0;
    assert(all.take(0) =~= Seq::<Entries<NormalizedCoord>>::empty());
    while k < locations.len()
        invariant
            k <= locations.len(),
            all == views(locations@),
            extents_of(extents@, all.take(k as int)),
        decreases locations.len() - k,
    {
        let location = &locations[k];
        let ghost done = all.take(k as int);
        let ghost entries = location@;
        proof {
            use_type_invariant(location);
            location.lemma_canonical();
            assert(done.push(entries.take(0)).drop_last() =~= done);
            assert(entries.take(0) =~= Entries::<NormalizedCoord>::empty());
        }
        let mut i: usize = 0;
        while i < location.len()
            invariant
                i <= entries.len(),
                entries == location@,
                increasing(entries),
                extents_of(extents@, done.push(entries.take(i as int))),
            decreases entries.len() - i,
        {
            let name = location.name_at(i);
            let value = location.value_at(i);
            let (least, greatest) = match extents.get(name.as_str()) {
                Some(pair) => pair,
                None => (NormalizedCoord::new(0), NormalizedCoord::new(0)),
            };
            let least = if value.0 < least.0 {
                value
            } else {
                least
            };
            let greatest = if value.0 > greatest.0 {
                value
            } else {
                greatest
            };
            let ghost before = extents@;
            let ghost partial = done.push(entries.take(i as int));
            let ghost grown = done.push(entries.take(i + 1));
            extents.insert(name.clone(), (least, greatest));
            proof {
                assert(partial.drop_last() =~= done);
                assert(grown.drop_last() =~= done);
                assert(entries.take(i + 1) =~= entries.take(i as int).push(entries[i as int]));
                lemma_increasing_take(entries, i as int);
                assert(lookup(entries.take(i as int), name@).is_none()) by {
                    lemma_lookup_found(entries.take(i as int), name@);
                    if lookup(entries.take(i as int), name@).is_some() {
                        let found = lookup(entries.take(i as int), name@).unwrap();
                        let j = choose|j: int|
                            0 <= j < i && #[trigger] entries.take(i as int)[j] == (name@, found);
                        assert(compare_names(
                            entries.take(i as int)[j].0,
                            entries[i as int].0,
                        ) == Order::Less);
                        lemma_compare_names(entries.take(i as int)[j].0, name@);
                    }
                }
                assert forall|other: Seq<char>| #[trigger]
                    extent(extents@, other) == (axis_min(grown, other), axis_max(grown, other)) by {
                    lemma_lookup_put(before, name@, (least, greatest), other);
                    lemma_lookup_push(entries.take(i as int), name@, value, other);
                    assert(extent(before, other) == (
                        axis_min(partial, other),
                        axis_max(partial, other),
                    ));
                }
            }
            i += 1;
        }
        proof {
            assert(entries.take(i as int) =~= entries);
            assert(done.push(entries) =~= all.take(k + 1));
        }
        k += 1;
    }
    assert(all.take(k as int) =~= all);
    extents
}

/// The region of each master, before any clipping. See [`spec_regions_for`].
pub fn regions_for(locations: &[NormalizedLocation]) -> (regions: Vec<VariationRegion>)
    ensures
        region_views(regions@) == spec_regions_for(views(locations@)),
{
    let extents = axis_extents(locations);
    let ghost all = views(locations@);
    let mut regions: Vec<VariationRegion> = Vec::new();
    let mut k: usize = 0;
    while k < locations.len()
        invariant
            k <= locations.len(),
            all == views(locations@),
            extents_of(extents@, all),
            regions@.len() == k,
            forall|j: int| 0 <= j < k ==> (#[trigger] regions@[j])@ == region_for(all, all[j]),
        decreases locations.len() - k,
    {
        let location = &locations[k];
        let ghost entries = location@;
        let ghost wanted = region_for(all, entries);
        proof {
            use_type_invariant(location);
            location.lemma_canonical();
        }
        let mut region: VariationRegion = AxisMap::new();
        let mut i: usize = 0;
        assert(region@ =~= wanted.take(0));
        while i < location.len()
            invariant
                i <= entries.len(),
                entries == location@,
                increasing(entries),
                extents_of(extents@, all),
                wanted == region_for(all, entries),
                region@ == wanted.take(i as int),
            decreases entries.len() - i,
        {
            let name = location.name_at(i);
            let value = location.value_at(i);
            let (least, greatest) = if value.0 == 0 {
                (NormalizedCoord::new(0), NormalizedCoord::new(0))
            } else {
                match extents.get(name.as_str()) {
                    Some(pair) => pair,
                    None => (NormalizedCoord::new(0), NormalizedCoord::new(0)),
                }
            };
            let tent = Tent::new(least, value, greatest);
            proof {
                assert(extent(extents@, name@) == (axis_min(all, name@), axis_max(all, name@)));
                assert(tent == tent_for(all, name@, value));
                use_type_invariant(&region);
                region.lemma_canonical();
                assert forall|j: int| 0 <= j < region@.len() implies compare_names(
                    (#[trigger] region@[j]).0,
                    name@,
                ) == Order::Less by {
                    assert(region@[j].0 == entries[j].0);
                    assert(compare_names(entries[j].0, entries[i as int].0)
                        == Order::Less);
                }
                lemma_put_last(region@, name@, tent);
                assert(wanted.take(i + 1) =~= wanted.take(i as int).push((name@, tent)));
            }
            region.insert(name.clone(), tent);
            i += 1;
        }
        assert(wanted.take(i as int) =~= wanted);
        regions.push(region);
        k += 1;
    }
    assert(region_views(regions@) =~= spec_regions_for(all));
    regions
}

/// The peak `peak` of an earlier master lies where the tent has influence: at
/// the tent's own peak, or between its bounds.
pub open spec fn overlaps_at(tent: Tent, peak: int) -> bool {
    peak == tent.peak@ || tent.lower@ < peak < tent.upper@
}

/// The earlier master `earlier` lies where `region` has influence, on every
/// axis. Both name the same axes.
pub open spec fn overlaps(region: Entries<Tent>, earlier: Entries<Tent>) -> bool {
    forall|i: int|
        0 <= i < region.len() ==> overlaps_at((#[trigger] region[i]).1, earlier[i].1.peak@)
}

/// How far the peak `peak` of an earlier master is from the peak of the tent.
pub open spec fn clip_distance(tent: Tent, peak: int) -> int {
    if peak < tent.peak@ {
        tent.peak@ - peak
    } else {
        peak - tent.peak@
    }
}

/// How far the tent reaches from its peak on the side of `peak`.
pub open spec fn clip_room(tent: Tent, peak: int) -> int {
    if peak < tent.peak@ {
        tent.peak@ - tent.lower@
    } else {
        tent.upper@ - tent.peak@
    }
}

/// The tent `a` would keep no greater a share of its reach than `b` if each
/// were cut off at the peak of the earlier master on its axis: the ratio of
/// distance to room of `a` is at most that of `b`.
pub open spec fn ratio_le(a: Tent, peak_a: int, b: Tent, peak_b: int) -> bool {
    clip_distance(a, peak_a) * clip_room(b, peak_b) <= clip_distance(b, peak_b) * clip_room(
        a,
        peak_a,
    )
}

/// The axis at `i` is one on which `region` is cut off at the peak of
/// `earlier`: the peaks differ there, and no other axis on which they differ
/// has a greater ratio of distance to room.
pub open spec fn clips(region: Entries<Tent>, earlier: Entries<Tent>, i: int) -> bool {
    &&& earlier[i].1.peak@ != region[i].1.peak@
    &&& forall|j: int|
        0 <= j < region.len() && earlier[j].1.peak@ != (#[trigger] region[j]).1.peak@ ==> ratio_le(
            region[j].1,
            earlier[j].1.peak@,
            region[i].1,
            earlier[i].1.peak@,
        )
}

/// The tent cut off at `peak`: its bound on the side of `peak` is moved there.
pub open spec fn clip_tent(tent: Tent, peak: NormalizedCoord) -> Tent {
    if peak@ < tent.peak@ {
        Tent { lower: peak, peak: tent.peak, upper: tent.upper }
    } else {
        Tent { lower: tent.lower, peak: tent.peak, upper: peak }
    }
}

/// The region of a master after the earlier master `earlier` has been taken
/// into account.
///
/// Nothing changes unless both name the same axes and `earlier` lies where
/// `region` has influence. Then the region is cut off at the peak of `earlier`
/// on the axis with the greatest ratio of distance to room, and on every axis
/// that shares that ratio.
pub open spec fn clipped(region: Entries<Tent>, earlier: Entries<Tent>) -> Entries<Tent> {
    if names_of(region) == names_of(earlier) && overlaps(region, earlier) {
        Seq::new(
            region.len(),
            |i: int|
                (
                    region[i].0,
                    if clips(region, earlier, i) {
                        clip_tent(region[i].1, earlier[i].1.peak)
                    } else {
                        region[i].1
                    },
                ),
        )
    } else {
        region
    }
}

/// The region at `index` after the first `upto` regions have been taken into
/// account, one after the other.
pub open spec fn influence_of(regions: Seq<Entries<Tent>>, index: int, upto: int) -> Entries<Tent>
    decreases upto,
{
    if upto <= 0 {
        regions[index]
    } else {
        clipped(influence_of(regions, index, upto - 1), regions[upto - 1])
    }
}

/// The region of influence of each master: its region, with every earlier
/// master taken into account.
pub open spec fn spec_master_influence(regions: Seq<Entries<Tent>>) -> Seq<Entries<Tent>> {
    Seq::new(regions.len(), |i: int| influence_of(regions, i, i))
}

/// Ratios with positive denominators are ordered transitively, and two that
/// are each at most the other are equal.
proof fn lemma_ratio_order(n1: int, d1: int, n2: int, d2: int, n3: int, d3: int)
    requires
        d1 > 0,
        d2 > 0,
        d3 > 0,
        n1 >= 0,
        n2 >= 0,
        n3 >= 0,
    ensures
        n1 * d2 <= n2 * d1 && n2 * d3 <= n3 * d2 ==> n1 * d3 <= n3 * d1,
        n1 * d2 <= n2 * d1 && n2 * d3 == n3 * d2 ==> n1 * d3 <= n3 * d1,
{
    if n1 * d2 <= n2 * d1 && n2 * d3 <= n3 * d2 {
        assert(n1 * d2 * d3 <= n2 * d1 * d3) by (nonlinear_arith)
            requires
                n1 * d2 <= n2 * d1,
                d3 > 0,
        ;
        assert(n2 * d3 * d1 <= n3 * d2 * d1) by (nonlinear_arith)
            requires
                n2 * d3 <= n3 * d2,
                d1 > 0,
        ;
        assert(n2 * d1 * d3 == n2 * d3 * d1) by (nonlinear_arith);
        assert(n1 * d2 * d3 == (n1 * d3) * d2) by (nonlinear_arith);
        assert(n3 * d2 * d1 == (n3 * d1) * d2) by (nonlinear_arith);
        assert(n1 * d3 <= n3 * d1) by (nonlinear_arith)
            requires
                (n1 * d3) * d2 <= (n3 * d1) * d2,
                d2 > 0,
        ;
    }
}

/// The distance and the room of a tent with respect to a peak that overlaps
/// it without being its own.
fn clip_ratio(tent: &Tent, peak: i32) -> (ratio: (u64, u64))
    requires
        overlaps_at(*tent, peak as int),
        peak != tent.peak@,
    ensures
        ratio.0 == clip_distance(*tent, peak as int),
        ratio.1 == clip_room(*tent, peak as int),
        0 < ratio.0 < ratio.1 <= 0xffff_ffff,
{
    if peak < tent.peak.0 {
        let distance: i64 = tent.peak.0 as i64 - peak as i64;
        let room: i64 = tent.peak.0 as i64 - tent.lower.0 as i64;
        (distance as u64, room as u64)
    } else {
        let distance: i64 = peak as i64 - tent.peak.0 as i64;
        let room: i64 = tent.upper.0 as i64 - tent.peak.0 as i64;
        (distance as u64, room as u64)
    }
}

/// Takes the earlier master `earlier` into account in `region`.
/// See [`clipped`].
pub fn clip(region: &mut VariationRegion, earlier: &VariationRegion)
    ensures
        final(region)@ == clipped(old(region)@, earlier@),
{
    let ghost start = region@;
    let ghost other = earlier@;
    if !region.same_axes(earlier) {
        return ;
    }
    assert(start.len() == other.len()) by {
        assert(names_of(start).len() == names_of(other).len());
    }
    let count = region.len();

    // does the earlier master lie where the region has influence?
    let mut i: usize = 0;
    while i < count
        invariant
            i <= count,
            count == start.len(),
            start.len() == other.len(),
            region@ == start,
            other == earlier@,
            forall|k: int| 0 <= k < i ==> overlaps_at((#[trigger] start[k]).1, other[k].1.peak@),
        decreases count - i,
    {
        let tent = region.value_at(i);
        let peak = earlier.value_at(i).peak.0;
        if !(peak == tent.peak.0 || (tent.lower.0 < peak && peak < tent.upper.0)) {
            assert(!overlaps_at(start[i as int].1, other[i as int].1.peak@));
            return ;
        }
        i += 1;
    }
    assert(overlaps(start, other));

    // the greatest ratio of distance to room
    let mut best: Option<(u64, u64)> = None;
    let ghost mut best_at: int = 0;
    let mut i: usize = 0;
    while i < count
        invariant
            i <= count,
            count == start.len(),
            start.len() == other.len(),
            region@ == start,
            other == earlier@,
            overlaps(start, other),
            best.is_none() ==> forall|k: int|
                0 <= k < i ==> other[k].1.peak@ == (#[trigger] start[k]).1.peak@,
            best matches Some(ratio) ==> {
                &&& 0 <= best_at < i
                &&& other[best_at].1.peak@ != start[best_at].1.peak@
                &&& ratio.0 == clip_distance(start[best_at].1, other[best_at].1.peak@)
                &&& ratio.1 == clip_room(start[best_at].1, other[best_at].1.peak@)
                &&& 0 < ratio.0 < ratio.1 <= 0xffff_ffff
                &&& forall|k: int|
                    0 <= k < i && other[k].1.peak@ != (#[trigger] start[k]).1.peak@ ==> ratio_le(
                        start[k].1,
                        other[k].1.peak@,
                        start[best_at].1,
                        other[best_at].1.peak@,
                    )
            },
        decreases count - i,
    {
        let tent = region.value_at(i);
        let peak = earlier.value_at(i).peak.0;
        if peak != tent.peak.0 {
            assert(overlaps_at(start[i as int].1, other[i as int].1.peak@));
            let ratio = clip_ratio(&tent, peak);
            match best {
                None => {
                    best = Some(ratio);
                    proof {
                        best_at = i as int;
                    }
                },
                Some(greatest) => {
                    assert(ratio.0 * greatest.1 <= 0xffff_ffff * 0xffff_ffff) by (nonlinear_arith)
                        requires
                            ratio.0 <= 0xffff_ffff,
                            greatest.1 <= 0xffff_ffff,
                    ;
                    assert(greatest.0 * ratio.1 <= 0xffff_ffff * 0xffff_ffff) by (nonlinear_arith)
                        requires
                            greatest.0 <= 0xffff_ffff,
                            ratio.1 <= 0xffff_ffff,
                    ;
                    if ratio.0 * greatest.1 > greatest.0 * ratio.1 {
                        proof {
                            let old_at = best_at;
                            assert forall|k: int|
                                0 <= k < i + 1 && other[k].1.peak@ != (
                                #[trigger] start[k]).1.peak@ implies ratio_le(
                                start[k].1,
                                other[k].1.peak@,
                                start[i as int].1,
                                other[i as int].1.peak@,
                            ) by {
                                if k < i {
                                    assert(overlaps_at(start[k].1, other[k].1.peak@));
                                    lemma_ratio_order(
                                        clip_distance(start[k].1, other[k].1.peak@),
                                        clip_room(start[k].1, other[k].1.peak@),
                                        greatest.0 as int,
                                        greatest.1 as int,
                                        ratio.0 as int,
                                        ratio.1 as int,
                                    );
                                }
                            }
                            best_at = i as int;
                        }
                        best = Some(ratio);
                    }
                },
            }
        }
        i += 1;
    }

    // cut the region off on each axis that has that ratio
    let ghost wanted = clipped(start, other);
    match best {
        None => {
            assert(wanted =~= start);
        },
        Some(greatest) => {
            let mut i: usize = 0;
            while i < count
                invariant
                    i <= count,
                    count == start.len(),
                    start.len() == other.len(),
                    region@.len() == count,
                    other == earlier@,
                    overlaps(start, other),
                    wanted == clipped(start, other),
                    names_of(start) == names_of(other),
                    0 <= best_at < count,
                    other[best_at].1.peak@ != start[best_at].1.peak@,
                    greatest.0 == clip_distance(start[best_at].1, other[best_at].1.peak@),
                    greatest.1 == clip_room(start[best_at].1, other[best_at].1.peak@),
                    0 < greatest.0 < greatest.1 <= 0xffff_ffff,
                    forall|k: int|
                        0 <= k < count && other[k].1.peak@ != (#[trigger] start[k]).1.peak@
                            ==> ratio_le(
                            start[k].1,
                            other[k].1.peak@,
                            start[best_at].1,
                            other[best_at].1.peak@,
                        ),
                    forall|k: int| 0 <= k < i ==> #[trigger] region@[k] == wanted[k],
                    forall|k: int| i <= k < count ==> #[trigger] region@[k] == start[k],
                decreases count - i,
            {
                let tent = region.value_at(i);
                let peak = earlier.value_at(i).peak;
                let ghost now = region@;
                assert(tent == start[i as int].1);
                if peak.0 != tent.peak.0 {
                    assert(overlaps_at(start[i as int].1, other[i as int].1.peak@));
                    let ratio = clip_ratio(&tent, peak.0);
                    assert(ratio.0 * greatest.1 <= 0xffff_ffff * 0xffff_ffff) by (nonlinear_arith)
                        requires
                            ratio.0 <= 0xffff_ffff,
                            greatest.1 <= 0xffff_ffff,
                    ;
                    assert(greatest.0 * ratio.1 <= 0xffff_ffff * 0xffff_ffff) by (nonlinear_arith)
                        requires
                            greatest.0 <= 0xffff_ffff,
                            ratio.1 <= 0xffff_ffff,
                    ;
                    let tied = ratio.0 * greatest.1 == greatest.0 * ratio.1;
                    proof {
                        // the axis is cut off exactly where its ratio is the greatest
                        if tied {
                            assert forall|j: int|
                                0 <= j < start.len() && other[j].1.peak@ != (
                                #[trigger] start[j]).1.peak@ implies ratio_le(
                                start[j].1,
                                other[j].1.peak@,
                                start[i as int].1,
                                other[i as int].1.peak@,
                            ) by {
                                assert(overlaps_at(start[j].1, other[j].1.peak@));
                                lemma_ratio_order(
                                    clip_distance(start[j].1, other[j].1.peak@),
                                    clip_room(start[j].1, other[j].1.peak@),
                                    greatest.0 as int,
                                    greatest.1 as int,
                                    ratio.0 as int,
                                    ratio.1 as int,
                                );
                            }
                            assert(clips(start, other, i as int));
                        } else {
                            assert(ratio_le(
                                start[i as int].1,
                                other[i as int].1.peak@,
                                start[best_at].1,
                                other[best_at].1.peak@,
                            ));
                            assert(!ratio_le(
                                start[best_at].1,
                                other[best_at].1.peak@,
                                start[i as int].1,
                                other[i as int].1.peak@,
                            ));
                            assert(!clips(start, other, i as int));
                        }
                    }
                    if tied {
                        let cut = if peak.0 < tent.peak.0 {
                            Tent { lower: peak, peak: tent.peak, upper: tent.upper }
                        } else {
                            Tent { lower: tent.lower, peak: tent.peak, upper: peak }
                        };
                        region.replace_value(i, cut);
                    }
                } else {
                    assert(!clips(start, other, i as int));
                }
                assert(region@[i as int] == wanted[i as int]);
                assert forall|k: int| 0 <= k < i implies #[trigger] region@[k] == wanted[k] by {
                    assert(region@[k] == now[k]);
                }
                assert forall|k: int| i < k < count implies #[trigger] region@[k] == start[k] by {
                    assert(region@[k] == now[k]);
                }
                i += 1;
            }
            assert(region@ =~= wanted);
        },
    }
}

/// The region of influence of each master. See [`spec_master_influence`].
///
/// The regions must be in the order of the sort keys of their masters: only
/// then is it enough to look at the masters before each.
pub fn master_influence(regions: Vec<VariationRegion>) -> (influence: Vec<VariationRegion>)
    ensures
        region_views(influence@) == spec_master_influence(region_views(regions@)),
{
    let ghost all = region_views(regions@);
    let mut influence: Vec<VariationRegion> = Vec::new();
    let mut i: usize = 0;
    while i < regions.len()
        invariant
            i <= regions.len(),
            all == region_views(regions@),
            influence@.len() == i,
            forall|k: int| 0 <= k < i ==> (#[trigger] influence@[k])@ == influence_of(all, k, k),
        decreases regions.len() - i,
    {
        let mut region = regions[i].clone();
        let mut j: usize = 0;
        while j < i
            invariant
                j <= i,
                i < regions.len(),
                all == region_views(regions@),
                region@ == influence_of(all, i as int, j as int),
            decreases i - j,
        {
            clip(&mut region, &regions[j]);
            j += 1;
        }
        influence.push(region);
        i += 1;
    }
    assert(region_views(influence@) =~= spec_master_influence(all));
    influence
}

} // verus!
