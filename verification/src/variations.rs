//! The model of how design space is divided among the masters.

use crate::axes::{increasing, lookup, put, AxisMap, Entries};
use crate::coords::{views, NormalizedCoord, NormalizedLocation};
use crate::regions::{
    master_influence, region_views, regions_for, spec_master_influence, spec_regions_for,
};
use crate::laws::{law_default_first, law_masters_strict, strictly_in_key_order};
use crate::sorting::{contains_name, names, on_axis, on_axis_points, LocationSortingHat};
use crate::tent::{blocked, lemma_scalar, scalar, Tent, VariationRegion};
use crate::vector::{Point, Vector};
use crate::weight::{Fraction, Weight};
use vstd::prelude::*;

verus! {

/// One line of a table of delta weights, as a mathematical value: for each
/// earlier master that has influence, its index and the factors of its weight.
pub type WeightRow = Seq<(int, Seq<Fraction>)>;

/// The entries of a line of a table of delta weights, as mathematical values.
pub open spec fn row_view(row: Seq<(usize, Weight)>) -> WeightRow {
    Seq::new(row.len(), |i: int| (row[i].0 as int, row[i].1@))
}

/// The lines of a table of delta weights, as mathematical values.
pub open spec fn table_view(table: Seq<Vec<(usize, Weight)>>) -> Seq<WeightRow> {
    Seq::new(table.len(), |k: int| row_view(table[k]@))
}

/// The weights at `location` of the first `upto` masters with the regions of
/// influence `influence`: for each whose region does not exclude the
/// location, its index and its influence there, in increasing order of index.
pub open spec fn weights_at(
    influence: Seq<Entries<Tent>>,
    location: Entries<NormalizedCoord>,
    upto: int,
) -> WeightRow
    decreases upto,
{
    if upto <= 0 {
        Seq::empty()
    } else {
        let front = weights_at(influence, location, upto - 1);
        if blocked(influence[upto - 1], location) {
            front
        } else {
            front.push((upto - 1, scalar(influence[upto - 1], location)))
        }
    }
}

/// The table of delta weights of a model: for the master at each index, the
/// weights at its location of the masters before it.
pub open spec fn spec_delta_weights(
    locations: Seq<Entries<NormalizedCoord>>,
    influence: Seq<Entries<Tent>>,
) -> Seq<WeightRow> {
    Seq::new(locations.len(), |k: int| weights_at(influence, locations[k], k))
}

/// Every index in the weights of the first `upto` masters is below `upto`.
pub proof fn lemma_weights_at(
    influence: Seq<Entries<Tent>>,
    location: Entries<NormalizedCoord>,
    upto: int,
)
    ensures
        forall|i: int|
            0 <= i < weights_at(influence, location, upto).len() ==> 0 <= (#[trigger] weights_at(
                influence,
                location,
                upto,
            )[i]).0 < upto,
    decreases upto,
{
    if upto > 0 {
        lemma_weights_at(influence, location, upto - 1);
        let row = weights_at(influence, location, upto);
        let front = weights_at(influence, location, upto - 1);
        assert forall|i: int| 0 <= i < row.len() implies 0 <= (#[trigger] row[i]).0 < upto by {
            if i < front.len() {
                assert(row[i] == front[i]);
            }
        }
    }
}

/// The multipliers to use when the deltas of earlier masters are applied at
/// each master. See [`spec_delta_weights`].
pub fn delta_weights(locations: &[NormalizedLocation], influencers: &[VariationRegion]) -> (weights:
    Vec<Vec<(usize, Weight)>>)
    requires
        locations@.len() == influencers@.len(),
    ensures
        table_view(weights@) == spec_delta_weights(views(locations@), region_views(influencers@)),
{
    let ghost all = views(locations@);
    let ghost regions = region_views(influencers@);
    let mut weights: Vec<Vec<(usize, Weight)>> = Vec::new();
    let mut k: usize = 0;
    while k < locations.len()
        invariant
            k <= locations.len(),
            locations@.len() == influencers@.len(),
            all == views(locations@),
            regions == region_views(influencers@),
            weights@.len() == k,
            forall|n: int|
                0 <= n < k ==> row_view((#[trigger] weights@[n])@) == weights_at(regions, all[n], n),
        decreases locations.len() - k,
    {
        let location = &locations[k];
        let mut row: Vec<(usize, Weight)> = Vec::new();
        let mut j: usize = 0;
        assert(row_view(row@) =~= weights_at(regions, location@, 0));
        while j < k
            invariant
                j <= k,
                k < locations.len(),
                locations@.len() == influencers@.len(),
                regions == region_views(influencers@),
                row_view(row@) == weights_at(regions, location@, j as int),
            decreases k - j,
        {
            let weight = influencers[j].scalar_at(location);
            proof {
                lemma_scalar(regions[j as int], location@);
            }
            if !weight.is_zero() {
                let ghost before = row@;
                row.push((j, weight));
                assert(row_view(row@) =~= row_view(before).push((j as int, weight@)));
            }
            j += 1;
        }
        weights.push(row);
        k += 1;
    }
    assert(table_view(weights@) =~= spec_delta_weights(all, regions));
    weights
}

/// The location at zero on each axis of `axis_order`.
pub open spec fn default_for(axis_order: Seq<Seq<char>>) -> Entries<NormalizedCoord>
    decreases axis_order.len(),
{
    if axis_order.len() == 0 {
        Seq::empty()
    } else {
        put(default_for(axis_order.drop_last()), axis_order.last(), NormalizedCoord(0))
    }
}

/// The axes that `location` names and `axis_order` does not hold, in
/// increasing order of name.
pub open spec fn unordered_axes(
    axis_order: Seq<Seq<char>>,
    location: Entries<NormalizedCoord>,
) -> Seq<Seq<char>>
    decreases location.len(),
{
    if location.len() == 0 {
        Seq::empty()
    } else {
        let front = unordered_axes(axis_order, location.drop_last());
        if axis_order.contains(location.last().0) {
            front
        } else {
            front.push(location.last().0)
        }
    }
}

/// `location` with zero on each axis of `axis_order` that it does not name.
pub open spec fn expanded(
    axis_order: Seq<Seq<char>>,
    location: Entries<NormalizedCoord>,
) -> Entries<NormalizedCoord>
    decreases axis_order.len(),
{
    if axis_order.len() == 0 {
        location
    } else {
        let front = expanded(axis_order.drop_last(), location);
        if lookup(front, axis_order.last()).is_some() {
            front
        } else {
            put(front, axis_order.last(), NormalizedCoord(0))
        }
    }
}

/// The first `upto` of the locations name only axes of `axis_order`.
pub open spec fn all_ordered(
    axis_order: Seq<Seq<char>>,
    locations: Seq<Entries<NormalizedCoord>>,
    upto: int,
) -> bool {
    forall|k: int| 0 <= k < upto ==> unordered_axes(axis_order, #[trigger] locations[k]).len() == 0
}

/// Why a model could not be built.
#[derive(Debug)]
pub enum VariationModelError {
    /// A location names axes that the axis order does not hold.
    AxesWithoutAssignedOrder { axis_names: Vec<String>, location: NormalizedLocation },
}

/// Two sequences that hold the same elements equally often hold the same
/// elements, and if one holds none twice then neither does the other.
pub proof fn lemma_same_elements<A>(a: Seq<A>, b: Seq<A>)
    requires
        a.to_multiset() == b.to_multiset(),
    ensures
        forall|x: A| a.contains(x) <==> b.contains(x),
        a.no_duplicates() ==> b.no_duplicates(),
{
    assert forall|x: A| a.contains(x) <==> b.contains(x) by {
        vstd::seq_lib::to_multiset_contains(a, x);
        vstd::seq_lib::to_multiset_contains(b, x);
    }
    if a.no_duplicates() {
        a.lemma_multiset_has_no_duplicates();
        b.lemma_multiset_has_no_duplicates_conv();
    }
}

/// The axis positions that some location lies on alone depend only on which
/// locations there are.
pub proof fn lemma_on_axis_points(
    a: Seq<Entries<NormalizedCoord>>,
    b: Seq<Entries<NormalizedCoord>>,
)
    requires
        forall|x: Entries<NormalizedCoord>| a.contains(x) <==> b.contains(x),
    ensures
        on_axis_points(a) == on_axis_points(b),
{
    assert forall|point: (Seq<char>, int)|
        on_axis_points(a).contains(point) == on_axis_points(b).contains(point) by {
        if on_axis_points(a).contains(point) {
            let k = choose|k: int| 0 <= k < a.len() && on_axis(#[trigger] a[k], point.0, point.1);
            assert(a.contains(a[k]));
            let m = choose|m: int| 0 <= m < b.len() && b[m] == a[k];
            assert(on_axis(b[m], point.0, point.1));
        }
        if on_axis_points(b).contains(point) {
            let k = choose|k: int| 0 <= k < b.len() && on_axis(#[trigger] b[k], point.0, point.1);
            assert(b.contains(b[k]));
            let m = choose|m: int| 0 <= m < a.len() && a[m] == b[k];
            assert(on_axis(a[m], point.0, point.1));
        }
    }
    assert(on_axis_points(a) =~= on_axis_points(b));
}

/// The location at zero on each axis of `axis_order`.
fn default_location(axis_order: &Vec<String>) -> (location: NormalizedLocation)
    ensures
        location@ == default_for(names(axis_order@)),
{
    let ghost order = names(axis_order@);
    let mut location: NormalizedLocation = AxisMap::new();
    let mut i: usize = 0;
    assert(order.take(0) =~= Seq::<Seq<char>>::empty());
    while i < axis_order.len()
        invariant
            i <= axis_order.len(),
            order == names(axis_order@),
            location@ == default_for(order.take(i as int)),
        decreases axis_order.len() - i,
    {
        proof {
            assert(order.take(i + 1).drop_last() =~= order.take(i as int));
            assert(order.take(i + 1).last() == axis_order@[i as int]@);
        }
        location.set_pos(axis_order[i].clone(), NormalizedCoord::new(0));
        i += 1;
    }
    assert(order.take(i as int) =~= order);
    location
}

/// The axes that `location` names and `axis_order` does not hold.
fn axes_without_order(axis_order: &Vec<String>, location: &NormalizedLocation) -> (axes: Vec<String>)
    ensures
        names(axes@) == unordered_axes(names(axis_order@), location@),
{
    let ghost order = names(axis_order@);
    let ghost entries = location@;
    let mut axes: Vec<String> = Vec::new();
    let mut i: usize = 0;
    assert(entries.take(0) =~= Entries::<NormalizedCoord>::empty());
    assert(names(axes@) =~= unordered_axes(order, entries.take(0)));
    while i < location.len()
        invariant
            i <= entries.len(),
            entries == location@,
            order == names(axis_order@),
            names(axes@) == unordered_axes(order, entries.take(i as int)),
        decreases entries.len() - i,
    {
        let name = location.name_at(i);
        proof {
            assert(entries.take(i + 1).drop_last() =~= entries.take(i as int));
            assert(entries.take(i + 1).last() == entries[i as int]);
        }
        if !contains_name(axis_order, name.as_str()) {
            let ghost before = axes@;
            axes.push(name.clone());
            assert(names(axes@) =~= names(before).push(name@));
        }
        i += 1;
    }
    assert(entries.take(i as int) =~= entries);
    axes
}

/// `location` with zero on each axis of `axis_order` that it does not name.
fn expand(axis_order: &Vec<String>, location: NormalizedLocation) -> (full: NormalizedLocation)
    ensures
        full@ == expanded(names(axis_order@), location@),
{
    let ghost order = names(axis_order@);
    let ghost start = location@;
    let mut full = location;
    let mut i: usize = 0;
    assert(order.take(0) =~= Seq::<Seq<char>>::empty());
    while i < axis_order.len()
        invariant
            i <= axis_order.len(),
            order == names(axis_order@),
            full@ == expanded(order.take(i as int), start),
        decreases axis_order.len() - i,
    {
        proof {
            assert(order.take(i + 1).drop_last() =~= order.take(i as int));
            assert(order.take(i + 1).last() == axis_order@[i as int]@);
        }
        if !full.has(axis_order[i].as_str()) {
            full.set_pos(axis_order[i].clone(), NormalizedCoord::new(0));
        }
        i += 1;
    }
    assert(order.take(i as int) =~= order);
    full
}

/// Whether `location` is one of `list`.
fn contains_location(list: &Vec<NormalizedLocation>, location: &NormalizedLocation) -> (found: bool)
    ensures
        found == views(list@).contains(location@),
{
    let mut i: usize = 0;
    while i < list.len()
        invariant
            i <= list.len(),
            forall|k: int| 0 <= k < i ==> views(list@)[k] != location@,
        decreases list.len() - i,
    {
        if list[i].equals(location) {
            assert(views(list@)[i as int] == location@);
            return true;
        }
        i += 1;
    }
    false
}

/// Why deltas could not be computed.
#[derive(Debug)]
pub enum DeltaError {
    /// The default location has no point sequence.
    DefaultUndefined,
    /// Not every point sequence has the same length.
    InconsistentNumbersOfPoints,
    /// The location is not one of the model.
    UnknownLocation(NormalizedLocation),
}

/// The lines of a table of delta weights, index by index.
pub open spec fn rows(table: Seq<Vec<(usize, Weight)>>) -> Seq<Seq<(usize, Weight)>> {
    Seq::new(table.len(), |k: int| table[k]@)
}

/// The point sequence that `point_seqs` give for `location`: that of the
/// first entry for it.
pub open spec fn supplied<P>(
    point_seqs: Seq<(NormalizedLocation, Vec<P>)>,
    location: Entries<NormalizedCoord>,
) -> Option<Seq<P>>
    decreases point_seqs.len(),
{
    if point_seqs.len() == 0 {
        None
    } else if point_seqs[0].0@ == location {
        Some(point_seqs[0].1@)
    } else {
        supplied(point_seqs.skip(1), location)
    }
}

/// Every point sequence has the length `len`.
pub open spec fn lengths_agree<P>(point_seqs: Seq<(NormalizedLocation, Vec<P>)>, len: nat) -> bool {
    forall|i: int| 0 <= i < point_seqs.len() ==> (#[trigger] point_seqs[i]).1@.len() == len
}

/// What is subtracted for one entry of a line of delta weights: the delta of
/// the earlier master, scaled by the weight unless the weight is one.
pub open spec fn share<V: Vector>(delta: V, weight: Weight) -> V {
    if weight@.len() == 0 {
        delta
    } else {
        delta.spec_scaled(weight)
    }
}

/// The delta of a master at the place `index`: `start`, less the share of
/// each master of `row` that has deltas. `earlier` holds the deltas of the
/// masters before, for each that has a point sequence.
pub open spec fn delta_at<V: Vector>(
    start: V,
    row: Seq<(usize, Weight)>,
    earlier: Seq<Option<Seq<V>>>,
    index: int,
) -> V
    decreases row.len(),
{
    if row.len() == 0 {
        start
    } else {
        let sofar = delta_at(start, row.drop_last(), earlier, index);
        let (master, weight) = row.last();
        if master < earlier.len() && earlier[master as int].is_some() && index
            < earlier[master as int].unwrap().len() {
            sofar.spec_minus(share(earlier[master as int].unwrap()[index], weight))
        } else {
            sofar
        }
    }
}

/// The deltas of the first `upto` masters: for each that has a point
/// sequence, a delta for each of its points.
pub open spec fn master_deltas<P: Point>(
    table: Seq<Seq<(usize, Weight)>>,
    locations: Seq<Entries<NormalizedCoord>>,
    point_seqs: Seq<(NormalizedLocation, Vec<P>)>,
    upto: int,
) -> Seq<Option<Seq<P::Vector>>>
    decreases upto,
{
    if upto <= 0 {
        Seq::empty()
    } else {
        let earlier = master_deltas(table, locations, point_seqs, upto - 1);
        earlier.push(
            match supplied(point_seqs, locations[upto - 1]) {
                None => None,
                Some(points) => Some(
                    Seq::new(
                        points.len(),
                        |index: int|
                            delta_at(
                                points[index].spec_minus(P::spec_origin()),
                                table[upto - 1],
                                earlier,
                                index,
                            ),
                    ),
                ),
            },
        )
    }
}

/// The locations that have deltas, each with its deltas, in the order of the
/// locations.
pub open spec fn with_locations<V>(
    locations: Seq<Entries<NormalizedCoord>>,
    deltas: Seq<Option<Seq<V>>>,
) -> Seq<(Entries<NormalizedCoord>, Seq<V>)>
    decreases deltas.len(),
{
    if deltas.len() == 0 {
        Seq::empty()
    } else {
        let front = with_locations(locations, deltas.drop_last());
        match deltas.last() {
            None => front,
            Some(values) => front.push((locations[deltas.len() - 1], values)),
        }
    }
}

/// Locations and their deltas, as mathematical values.
pub open spec fn delta_views<V>(deltas: Seq<(NormalizedLocation, Vec<V>)>) -> Seq<
    (Entries<NormalizedCoord>, Seq<V>),
> {
    Seq::new(deltas.len(), |i: int| (deltas[i].0@, deltas[i].1@))
}

/// The index of the first entry of `point_seqs` for `location`.
fn find_points<P>(
    point_seqs: &Vec<(NormalizedLocation, Vec<P>)>,
    location: &NormalizedLocation,
) -> (found: Option<usize>)
    ensures
        match found {
            Some(i) => i < point_seqs@.len() && supplied(point_seqs@, location@) == Some(
                point_seqs@[i as int].1@,
            ),
            None => supplied(point_seqs@, location@).is_none(),
        },
{
    let mut i: usize = 0;
    assert(point_seqs@.skip(0) =~= point_seqs@);
    while i < point_seqs.len()
        invariant
            i <= point_seqs@.len(),
            supplied(point_seqs@, location@) == supplied(point_seqs@.skip(i as int), location@),
        decreases point_seqs@.len() - i,
    {
        assert(point_seqs@.skip(i as int).skip(1) =~= point_seqs@.skip(i + 1));
        if point_seqs[i].0.equals(location) {
            return Some(i);
        }
        i += 1;
    }
    None
}

/// A model of how design space is divided into regions of influence, one for
/// each master, from which the deltas of a variation store are computed.
///
/// The masters stand in the order in which they are resolved: the deltas of a
/// master depend only on masters before it.
#[derive(Debug)]
pub struct VariationModel {
    default: NormalizedLocation,
    locations: Vec<NormalizedLocation>,
    influence: Vec<VariationRegion>,
    delta_weights: Vec<Vec<(usize, Weight)>>,
}

impl VariationModel {
    /// A model has one region and one line of delta weights for each master,
    /// and the delta weights are those of its locations and regions.
    #[verifier::type_invariant]
    pub closed spec fn well_formed(&self) -> bool {
        &&& self.locations@.len() == self.influence@.len()
        &&& table_view(self.delta_weights@) == spec_delta_weights(
            views(self.locations@),
            region_views(self.influence@),
        )
    }

    /// The location at zero on every axis of the model.
    pub closed spec fn spec_default(&self) -> Entries<NormalizedCoord> {
        self.default@
    }

    /// The locations of the masters, in the order in which they are resolved.
    pub closed spec fn spec_locations(&self) -> Seq<Entries<NormalizedCoord>> {
        views(self.locations@)
    }

    /// The region of influence of each master.
    pub closed spec fn spec_influence(&self) -> Seq<Entries<Tent>> {
        region_views(self.influence@)
    }

    /// For each master, the weights at its location of the masters before it.
    pub closed spec fn spec_weights(&self) -> Seq<WeightRow> {
        table_view(self.delta_weights@)
    }

    /// What [`VariationModel::well_formed`] says of the parts of a model.
    pub proof fn lemma_well_formed(&self)
        requires
            self.well_formed(),
        ensures
            self.spec_influence().len() == self.spec_locations().len(),
            self.spec_weights() == spec_delta_weights(self.spec_locations(), self.spec_influence()),
    {
    }

    /// Models with the same masters and the same regions of influence have the
    /// same delta weights.
    pub proof fn lemma_same_weights(&self, other: &VariationModel)
        requires
            self.well_formed(),
            other.well_formed(),
            self.spec_locations() == other.spec_locations(),
            self.spec_influence() == other.spec_influence(),
        ensures
            self.spec_weights() == other.spec_weights(),
    {
    }

    /// The model of the masters at `locations`.
    ///
    /// Each location is taken at zero on the axes of `axis_order` that it does
    /// not name, and a location that occurs twice counts once. `axis_order`
    /// holds the axes from the most important to the least. A location that
    /// names an axis that `axis_order` does not hold is refused; of several,
    /// the first is reported.
    pub fn new(locations: Vec<NormalizedLocation>, axis_order: Vec<String>) -> (result: Result<
        VariationModel,
        VariationModelError,
    >)
        ensures
            result.is_ok() == all_ordered(
                names(axis_order@),
                views(locations@),
                locations@.len() as int,
            ),
            result matches Err(VariationModelError::AxesWithoutAssignedOrder { axis_names, location })
                ==> exists|k: int|
                0 <= k < locations@.len() && all_ordered(names(axis_order@), views(locations@), k)
                    && location@ == #[trigger] views(locations@)[k] && names(axis_names@)
                    == unordered_axes(names(axis_order@), location@) && axis_names@.len() > 0,
            result matches Ok(model) ==> {
                let masters = model.spec_locations();
                &&& model.spec_default() == default_for(names(axis_order@))
                &&& masters.no_duplicates()
                &&& forall|x: Entries<NormalizedCoord>|
                    masters.contains(x) <==> exists|k: int|
                        0 <= k < locations@.len() && x == expanded(
                            names(axis_order@),
                            #[trigger] views(locations@)[k],
                        )
                &&& strictly_in_key_order(
                    names(axis_order@),
                    on_axis_points(masters),
                    masters,
                )
                &&& masters.contains(default_for(names(axis_order@))) ==> masters[0] == default_for(
                    names(axis_order@),
                )
                &&& model.spec_influence() == spec_master_influence(spec_regions_for(masters))
                &&& model.spec_weights() == spec_delta_weights(masters, model.spec_influence())
                &&& masters.len() > 0 ==> model.spec_weights()[0] == WeightRow::empty()
            },
    {
        let ghost order = names(axis_order@);
        let ghost inputs = views(locations@);
        let default = default_location(&axis_order);
        let mut full: Vec<NormalizedLocation> = Vec::new();
        let mut k: usize = 0;
        while k < locations.len()
            invariant
                k <= locations.len(),
                order == names(axis_order@),
                inputs == views(locations@),
                all_ordered(order, inputs, k as int),
                forall|j: int| 0 <= j < k ==> increasing(#[trigger] inputs[j]),
                views(full@).no_duplicates(),
                forall|x: Entries<NormalizedCoord>|
                    views(full@).contains(x) <==> exists|j: int|
                        0 <= j < k && x == expanded(order, #[trigger] inputs[j]),
            decreases locations.len() - k,
        {
            let location = &locations[k];
            proof {
                use_type_invariant(location);
                location.lemma_canonical();
            }
            let axis_names = axes_without_order(&axis_order, location);
            if axis_names.len() > 0 {
                let location = location.clone();
                assert(location@ == inputs[k as int]);
                assert(!all_ordered(order, inputs, locations@.len() as int));
                return Err(VariationModelError::AxesWithoutAssignedOrder { axis_names, location });
            }
            let whole = expand(&axis_order, location.clone());
            let ghost before = views(full@);
            assert(whole@ == expanded(order, inputs[k as int]));
            if !contains_location(&full, &whole) {
                full.push(whole);
                proof {
                    let after = views(full@);
                    assert(after =~= before.push(whole@));
                    assert forall|x: Entries<NormalizedCoord>|
                        after.contains(x) <==> exists|j: int|
                            0 <= j < k + 1 && x == expanded(order, #[trigger] inputs[j]) by {
                        if after.contains(x) {
                            let n = choose|n: int| 0 <= n < after.len() && after[n] == x;
                            if n < before.len() {
                                assert(before[n] == x);
                                assert(before.contains(x));
                            } else {
                                assert(x == expanded(order, inputs[k as int]));
                            }
                        }
                        if exists|j: int| 0 <= j < k + 1 && x == expanded(order, #[trigger] inputs[j]) {
                            let j = choose|j: int|
                                0 <= j < k + 1 && x == expanded(order, #[trigger] inputs[j]);
                            if j < k {
                                assert(before.contains(x));
                                let n = choose|n: int| 0 <= n < before.len() && before[n] == x;
                                assert(after[n] == x);
                            } else {
                                assert(after[after.len() - 1] == x);
                            }
                        }
                    }
                    assert(after.no_duplicates()) by {
                        assert forall|a: int, b: int|
                            0 <= a < after.len() && 0 <= b < after.len() && a != b implies after[a]
                            != after[b] by {
                            if a < before.len() && b < before.len() {
                                assert(before[a] != before[b]);
                            } else if a < before.len() {
                                assert(before.contains(before[a]));
                            } else {
                                assert(before.contains(before[b]));
                            }
                        }
                    }
                }
            } else {
                proof {
                    assert forall|x: Entries<NormalizedCoord>|
                        before.contains(x) <==> exists|j: int|
                            0 <= j < k + 1 && x == expanded(order, #[trigger] inputs[j]) by {
                        if exists|j: int| 0 <= j < k + 1 && x == expanded(order, #[trigger] inputs[j]) {
                            let j = choose|j: int|
                                0 <= j < k + 1 && x == expanded(order, #[trigger] inputs[j]);
                            if j == k {
                                assert(before.contains(whole@));
                            }
                        }
                    }
                }
            }
            k += 1;
        }
        let hat = LocationSortingHat::new(full.as_slice(), axis_order);
        let sorted = hat.sort(&full);
        let regions = regions_for(sorted.as_slice());
        assert(regions@.len() == sorted@.len()) by {
            assert(region_views(regions@).len() == spec_regions_for(views(sorted@)).len());
        }
        let ghost unclipped = region_views(regions@);
        let influence = master_influence(regions);
        assert(influence@.len() == sorted@.len()) by {
            assert(region_views(influence@).len() == spec_master_influence(unclipped).len());
        }
        let delta_weights = delta_weights(sorted.as_slice(), influence.as_slice());
        proof {
            lemma_same_elements(views(full@), views(sorted@));
            lemma_same_elements(views(sorted@), views(full@));
            lemma_on_axis_points(views(full@), views(sorted@));
            assert(region_views(influence@).len() == views(sorted@).len());
            if views(sorted@).contains(default_for(order)) {
                law_default_first(order, hat.points(), inputs, views(sorted@));
            }
            law_masters_strict(order, hat.points(), inputs, views(sorted@));
        }
        Ok(VariationModel { default, locations: sorted, influence, delta_weights })
    }

    /// The table of delta weights: for each master, the index and the weight
    /// of each master before it that has influence at its location.
    pub closed spec fn spec_table(&self) -> Seq<Seq<(usize, Weight)>> {
        rows(self.delta_weights@)
    }

    /// The deltas of the masters for which `point_seqs` give points, in the
    /// order of the model.
    ///
    /// The default location must have points, and all point sequences must
    /// have one length. A location without points is passed over, and so is
    /// a point sequence for a location that the model does not know. Where
    /// `point_seqs` hold a location twice, the first entry counts.
    pub fn deltas<P: Point>(&self, point_seqs: &Vec<(NormalizedLocation, Vec<P>)>) -> (result:
        Result<Vec<(NormalizedLocation, Vec<P::Vector>)>, DeltaError>)
        ensures
            match result {
                Ok(deltas) => {
                    &&& supplied(point_seqs@, self.spec_default()) matches Some(points)
                        && lengths_agree(point_seqs@, points.len())
                    &&& delta_views(deltas@) == with_locations(
                        self.spec_locations(),
                        master_deltas::<P>(
                            self.spec_table(),
                            self.spec_locations(),
                            point_seqs@,
                            self.spec_locations().len() as int,
                        ),
                    )
                },
                Err(DeltaError::DefaultUndefined) => supplied(point_seqs@, self.spec_default())
                    .is_none(),
                Err(DeltaError::InconsistentNumbersOfPoints) => supplied(
                    point_seqs@,
                    self.spec_default(),
                ) matches Some(points) && !lengths_agree(point_seqs@, points.len()),
                Err(DeltaError::UnknownLocation(_)) => false,
            },
    {
        proof {
            use_type_invariant(self);
        }
        let count = match find_points(point_seqs, &self.default) {
            None => {
                return Err(DeltaError::DefaultUndefined);
            },
            Some(at) => point_seqs[at].1.len(),
        };
        let ghost defaults = supplied(point_seqs@, self.spec_default()).unwrap();
        let mut n: usize = 0;
        while n < point_seqs.len()
            invariant
                n <= point_seqs@.len(),
                supplied(point_seqs@, self.spec_default()) == Some(defaults),
                defaults.len() == count,
                forall|i: int| 0 <= i < n ==> (#[trigger] point_seqs@[i]).1@.len() == count,
            decreases point_seqs@.len() - n,
        {
            if point_seqs[n].1.len() != count {
                assert(!lengths_agree(point_seqs@, defaults.len()));
                return Err(DeltaError::InconsistentNumbersOfPoints);
            }
            n += 1;
        }
        assert(lengths_agree(point_seqs@, count as nat));
        assert(self.delta_weights@.len() == self.locations@.len()) by {
            assert(table_view(self.delta_weights@).len() == spec_delta_weights(
                views(self.locations@),
                region_views(self.influence@),
            ).len());
        }

        let ghost masters = self.spec_locations();
        let ghost table = self.spec_table();
        // the deltas so far, and for each master where its deltas stand in them
        let mut out: Vec<(NormalizedLocation, Vec<P::Vector>)> = Vec::new();
        let mut slots: Vec<Option<usize>> = Vec::new();
        let ghost mut all: Seq<Option<Seq<P::Vector>>> = Seq::empty();
        let mut k: usize = 0;
        assert(delta_views(out@) =~= with_locations(masters, all));
        while k < self.locations.len()
            invariant
                k <= self.locations@.len(),
                self.well_formed(),
                self.delta_weights@.len() == self.locations@.len(),
                masters == self.spec_locations(),
                table == self.spec_table(),
                all == master_deltas::<P>(table, masters, point_seqs@, k as int),
                all.len() == k,
                slots@.len() == k,
                forall|j: int|
                    0 <= j < k ==> match #[trigger] slots@[j] {
                        None => all[j].is_none(),
                        Some(slot) => slot < out@.len() && all[j] == Some(out@[slot as int].1@),
                    },
                delta_views(out@) == with_locations(masters, all),
            decreases self.locations@.len() - k,
        {
            let location = &self.locations[k];
            let ghost earlier = all;
            match find_points(point_seqs, location) {
                None => {
                    slots.push(None);
                    proof {
                        all = earlier.push(None);
                        assert(all.drop_last() =~= earlier);
                    }
                },
                Some(at) => {
                    let points = &point_seqs[at].1;
                    let row = &self.delta_weights[k];
                    let ghost wanted = master_deltas::<P>(table, masters, point_seqs@, k + 1).last().unwrap();
                    assert(table[k as int] == row@);
                    proof {
                        lemma_weights_at(
                            region_views(self.influence@),
                            masters[k as int],
                            k as int,
                        );
                        assert(row_view(row@) == weights_at(
                            region_views(self.influence@),
                            masters[k as int],
                            k as int,
                        )) by {
                            assert(table_view(self.delta_weights@)[k as int] == row_view(row@));
                        }
                        assert forall|m: int| 0 <= m < row@.len() implies (#[trigger] row@[m]).0 < k by {
                            assert(row_view(row@)[m].0 == row@[m].0);
                        }
                    }
                    let mut deltas: Vec<P::Vector> = Vec::new();
                    let mut index: usize = 0;
                    while index < points.len()
                        invariant
                            index <= points@.len(),
                            k < self.locations@.len(),
                            slots@.len() == k,
                            earlier.len() == k,
                            wanted.len() == points@.len(),
                            forall|j: int|
                                0 <= j < k ==> match #[trigger] slots@[j] {
                                    None => earlier[j].is_none(),
                                    Some(slot) => slot < out@.len() && earlier[j] == Some(
                                        out@[slot as int].1@,
                                    ),
                                },
                            forall|m: int| 0 <= m < row@.len() ==> (#[trigger] row@[m]).0 < k,
                            forall|i: int|
                                0 <= i < points@.len() ==> #[trigger] wanted[i] == delta_at(
                                    points@[i].spec_minus(P::spec_origin()),
                                    row@,
                                    earlier,
                                    i,
                                ),
                            deltas@ == wanted.take(index as int),
                        decreases points@.len() - index,
                    {
                        let origin = P::origin();
                        let mut delta = points[index].minus(&origin);
                        let ghost start = delta;
                        let mut m: usize = 0;
                        assert(row@.take(0) =~= Seq::<(usize, Weight)>::empty());
                        while m < row.len()
                            invariant
                                m <= row@.len(),
                                index < points@.len(),
                                slots@.len() == k,
                                earlier.len() == k,
                                forall|j: int|
                                    0 <= j < k ==> match #[trigger] slots@[j] {
                                        None => earlier[j].is_none(),
                                        Some(slot) => slot < out@.len() && earlier[j] == Some(
                                            out@[slot as int].1@,
                                        ),
                                    },
                                forall|m: int| 0 <= m < row@.len() ==> (#[trigger] row@[m]).0 < k,
                                delta == delta_at(start, row@.take(m as int), earlier, index as int),
                            decreases row@.len() - m,
                        {
                            let master = row[m].0;
                            let weight = &row[m].1;
                            proof {
                                assert(row@.take(m + 1).drop_last() =~= row@.take(m as int));
                                assert(row@.take(m + 1).last() == row@[m as int]);
                                assert(row@[m as int].0 < k);
                            }
                            match slots[master] {
                                None => {},
                                Some(slot) => {
                                    let prior = &out[slot].1;
                                    if index < prior.len() {
                                        delta = if weight.is_one() {
                                            delta.minus(&prior[index])
                                        } else {
                                            delta.minus(&prior[index].scaled(weight))
                                        };
                                    }
                                },
                            }
                            m += 1;
                        }
                        assert(row@.take(m as int) =~= row@);
                        deltas.push(delta);
                        assert(wanted.take(index + 1) =~= wanted.take(index as int).push(
                            wanted[index as int],
                        ));
                        index += 1;
                    }
                    assert(wanted.take(index as int) =~= wanted);
                    let ghost before = out@;
                    slots.push(Some(out.len()));
                    out.push((location.clone(), deltas));
                    proof {
                        all = earlier.push(Some(wanted));
                        assert(all.drop_last() =~= earlier);
                        assert(delta_views(out@) =~= delta_views(before).push(
                            (masters[k as int], wanted),
                        ));
                        assert forall|j: int| 0 <= j < k + 1 implies match #[trigger] slots@[j] {
                            None => all[j].is_none(),
                            Some(slot) => slot < out@.len() && all[j] == Some(out@[slot as int].1@),
                        } by {
                            if j < k {
                                match slots@[j] {
                                    None => {},
                                    Some(slot) => {
                                        assert(out@[slot as int] == before[slot as int]);
                                    },
                                }
                            }
                        }
                    }
                },
            }
            k += 1;
        }
        Ok(out)
    }

    /// The model with the given default location, locations and regions of
    /// influence, as they were taken from a model before; the delta weights
    /// are computed from them. There is no such model unless there are as
    /// many regions as locations.
    pub fn from_parts(
        default: NormalizedLocation,
        locations: Vec<NormalizedLocation>,
        influence: Vec<VariationRegion>,
    ) -> (model: Option<VariationModel>)
        ensures
            model.is_some() == (locations@.len() == influence@.len()),
            model matches Some(model) ==> {
                &&& model.spec_default() == default@
                &&& model.spec_locations() == views(locations@)
                &&& model.spec_influence() == region_views(influence@)
                &&& model.spec_weights() == spec_delta_weights(
                    views(locations@),
                    region_views(influence@),
                )
            },
    {
        if locations.len() != influence.len() {
            return None;
        }
        let delta_weights = delta_weights(locations.as_slice(), influence.as_slice());
        Some(VariationModel { default, locations, influence, delta_weights })
    }

    /// The model without masters and without axes.
    pub fn empty() -> (model: VariationModel)
        ensures
            model.spec_default() == Entries::<NormalizedCoord>::empty(),
            model.spec_locations() == Seq::<Entries<NormalizedCoord>>::empty(),
            model.spec_influence() == Seq::<Entries<Tent>>::empty(),
            model.spec_weights() == Seq::<WeightRow>::empty(),
    {
        let locations: Vec<NormalizedLocation> = Vec::new();
        let influence: Vec<VariationRegion> = Vec::new();
        let delta_weights: Vec<Vec<(usize, Weight)>> = Vec::new();
        assert(table_view(delta_weights@) =~= spec_delta_weights(
            views(locations@),
            region_views(influence@),
        ));
        let model = VariationModel { default: AxisMap::new(), locations, influence, delta_weights };
        assert(model.spec_locations() =~= Seq::<Entries<NormalizedCoord>>::empty());
        assert(model.spec_influence() =~= Seq::<Entries<Tent>>::empty());
        assert(model.spec_weights() =~= Seq::<WeightRow>::empty());
        model
    }

    /// The locations of the masters, in the order in which they are resolved.
    pub fn locations(&self) -> (locations: &Vec<NormalizedLocation>)
        ensures
            views(locations@) == self.spec_locations(),
    {
        &self.locations
    }

    /// The region of influence of each master.
    pub fn influence(&self) -> (influence: &Vec<VariationRegion>)
        ensures
            region_views(influence@) == self.spec_influence(),
    {
        &self.influence
    }

    /// For each master, the weights at its location of the masters before it.
    pub fn delta_weights(&self) -> (weights: &Vec<Vec<(usize, Weight)>>)
        ensures
            table_view(weights@) == self.spec_weights(),
    {
        &self.delta_weights
    }

    /// The location at zero on every axis of the model.
    pub fn default_location(&self) -> (location: &NormalizedLocation)
        ensures
            location@ == self.spec_default(),
    {
        &self.default
    }
}

impl Clone for VariationModel {
    fn clone(&self) -> (copy: VariationModel)
        ensures
            copy.spec_default() == self.spec_default(),
            copy.spec_locations() == self.spec_locations(),
            copy.spec_influence() == self.spec_influence(),
            copy.spec_weights() == self.spec_weights(),
    {
        proof {
            use_type_invariant(self);
        }
        let mut locations: Vec<NormalizedLocation> = Vec::new();
        let mut i: usize = 0;
        while i < self.locations.len()
            invariant
                i <= self.locations@.len(),
                locations@.len() == i,
                forall|k: int| 0 <= k < i ==> (#[trigger] locations@[k])@ == self.locations@[k]@,
            decreases self.locations@.len() - i,
        {
            locations.push(self.locations[i].clone());
            i += 1;
        }
        let mut influence: Vec<VariationRegion> = Vec::new();
        let mut i: usize = 0;
        while i < self.influence.len()
            invariant
                i <= self.influence@.len(),
                influence@.len() == i,
                forall|k: int| 0 <= k < i ==> (#[trigger] influence@[k])@ == self.influence@[k]@,
            decreases self.influence@.len() - i,
        {
            influence.push(self.influence[i].clone());
            i += 1;
        }
        let mut delta_weights: Vec<Vec<(usize, Weight)>> = Vec::new();
        let mut i: usize = 0;
        while i < self.delta_weights.len()
            invariant
                i <= self.delta_weights@.len(),
                delta_weights@.len() == i,
                forall|k: int|
                    0 <= k < i ==> row_view((#[trigger] delta_weights@[k])@) == row_view(
                        self.delta_weights@[k]@,
                    ),
            decreases self.delta_weights@.len() - i,
        {
            let row = &self.delta_weights[i];
            let mut copy: Vec<(usize, Weight)> = Vec::new();
            let mut j: usize = 0;
            while j < row.len()
                invariant
                    j <= row@.len(),
                    copy@.len() == j,
                    forall|k: int|
                        0 <= k < j ==> (#[trigger] copy@[k]).0 == row@[k].0 && copy@[k].1@
                            == row@[k].1@,
                decreases row@.len() - j,
            {
                copy.push((row[j].0, row[j].1.clone()));
                j += 1;
            }
            assert(row_view(copy@) =~= row_view(row@));
            delta_weights.push(copy);
            i += 1;
        }
        assert(views(locations@) =~= views(self.locations@));
        assert(region_views(influence@) =~= region_views(self.influence@));
        assert(table_view(delta_weights@) =~= table_view(self.delta_weights@));
        VariationModel { default: self.default.clone(), locations, influence, delta_weights }
    }
}

impl PartialEq for VariationModel {
    fn eq(&self, other: &VariationModel) -> (same: bool) {
        if !self.default.equals(&other.default) {
            return false;
        }
        if self.locations.len() != other.locations.len() {
            assert(self.spec_locations().len() != other.spec_locations().len());
            return false;
        }
        proof {
            use_type_invariant(self);
            use_type_invariant(other);
        }
        let mut i: usize = 0;
        while i < self.locations.len()
            invariant
                i <= self.locations@.len(),
                self.locations@.len() == other.locations@.len(),
                self.locations@.len() == self.influence@.len(),
                other.locations@.len() == other.influence@.len(),
                forall|k: int|
                    0 <= k < i ==> self.spec_locations()[k] == other.spec_locations()[k]
                        && self.spec_influence()[k] == other.spec_influence()[k],
            decreases self.locations@.len() - i,
        {
            if !self.locations[i].equals(&other.locations[i]) {
                assert(self.spec_locations()[i as int] != other.spec_locations()[i as int]);
                return false;
            }
            if !self.influence[i].equals(&other.influence[i]) {
                assert(self.spec_influence()[i as int] != other.spec_influence()[i as int]);
                return false;
            }
            i += 1;
        }
        assert(self.spec_locations() =~= other.spec_locations());
        assert(self.spec_influence() =~= other.spec_influence());
        true
    }
}

/// Models are equal when they have the same default location and the same
/// masters with the same regions of influence. Their delta weights are then
/// the same too, since they follow from the masters and the regions.
impl vstd::std_specs::cmp::PartialEqSpecImpl for VariationModel {
    open spec fn obeys_eq_spec() -> bool {
        true
    }

    open spec fn eq_spec(&self, other: &VariationModel) -> bool {
        &&& self.spec_default() == other.spec_default()
        &&& self.spec_locations() == other.spec_locations()
        &&& self.spec_influence() == other.spec_influence()
    }
}

impl Eq for VariationModel {

}

} // verus!
