//! Tents, the regions made of them, and how much a region applies at a location.

use crate::axes::{AxisMap, Entries};
use crate::coords::{coordinate, NormalizedCoord, NormalizedLocation};
use crate::order::{compare_strs, lemma_compare_names, Order};
use crate::weight::{all_proper, lemma_product_zero, numerator_of, Fraction, Weight};
use vstd::prelude::*;

verus! {

/// The lower bound, peak and upper bound of a master's influence on one axis.
///
/// Seen as a graph, the influence is a tent: nothing at the lower bound, all
/// at the peak, nothing again at the upper bound, and straight lines between.
#[derive(Clone, Copy, Debug, PartialEq, Eq, Structural)]
pub struct Tent {
    pub lower: NormalizedCoord,
    pub peak: NormalizedCoord,
    pub upper: NormalizedCoord,
}

impl Tent {
    /// The bounds are in order and do not lie on both sides of zero: a tent
    /// that spans zero would have influence at the default location.
    pub open spec fn valid(self) -> bool {
        &&& self.lower@ <= self.peak@ <= self.upper@
        &&& !(self.lower@ < 0 && self.upper@ > 0)
    }

    /// The tent from zero to zero with its peak at zero, which stands for
    /// influence everywhere.
    pub open spec fn always_on(self) -> bool {
        self.lower@ == 0 && self.peak@ == 0 && self.upper@ == 0
    }

    /// The tent leaves the influence of its region at the coordinate `v` as it
    /// is: it is not valid, or `v` is its peak, or it is always on.
    pub open spec fn neutral_at(self, v: int) -> bool {
        !self.valid() || v == self.peak@ || self.always_on()
    }

    /// The tent takes all influence away at the coordinate `v`, which lies on
    /// or beyond one of its bounds.
    pub open spec fn excludes(self, v: int) -> bool {
        !self.neutral_at(v) && (v <= self.lower@ || self.upper@ <= v)
    }

    /// The height of the tent at the coordinate `v`, where `v` lies between
    /// the bounds and is not the peak: the distance of `v` from the bound on
    /// its side of the peak, over the distance of the peak from that bound.
    pub open spec fn slope_at(self, v: int) -> Fraction {
        if v < self.peak@ {
            Fraction {
                numerator: (v - self.lower@) as u32,
                denominator: (self.peak@ - self.lower@) as u32,
            }
        } else {
            Fraction {
                numerator: (self.upper@ - v) as u32,
                denominator: (self.upper@ - self.peak@) as u32,
            }
        }
    }

    /// The tent with the given peak whose bound on the far side of zero is
    /// taken from the arguments, and whose other bound is zero: `lower` counts
    /// for a peak at or below zero, `upper` for a peak above it.
    pub open spec fn spec_new(
        lower: NormalizedCoord,
        peak: NormalizedCoord,
        upper: NormalizedCoord,
    ) -> Tent {
        if peak@ > 0 {
            Tent { lower: NormalizedCoord(0), peak, upper }
        } else {
            Tent { lower, peak, upper: NormalizedCoord(0) }
        }
    }

    /// See [`Tent::spec_new`].
    pub fn new(lower: NormalizedCoord, peak: NormalizedCoord, upper: NormalizedCoord) -> (tent:
        Tent)
        ensures
            tent == Tent::spec_new(lower, peak, upper),
    {
        if peak.0 > 0 {
            Tent { lower: NormalizedCoord(0), peak, upper }
        } else {
            Tent { lower, peak, upper: NormalizedCoord(0) }
        }
    }

    /// Whether the tent can have any influence under the rules of OpenType.
    /// See [`Tent::valid`].
    pub fn validate(&self) -> (valid: bool)
        ensures
            valid == self.valid(),
    {
        let lower = self.lower.0;
        let peak = self.peak.0;
        let upper = self.upper.0;
        if lower > peak || peak > upper {
            return false;
        }
        if lower < 0 && upper > 0 {
            return false;
        }
        true
    }

    /// Whether the tent is the one that is always on.
    fn is_always_on(&self) -> (on: bool)
        ensures
            on == self.always_on(),
    {
        self.lower.0 == 0 && self.peak.0 == 0 && self.upper.0 == 0
    }

    /// The height of the tent at `v`.
    fn height_at(&self, v: i32) -> (height: Fraction)
        requires
            !self.neutral_at(v as int),
            !self.excludes(v as int),
        ensures
            height == self.slope_at(v as int),
            height.proper(),
    {
        if v < self.peak.0 {
            let numerator: i64 = v as i64 - self.lower.0 as i64;
            let denominator: i64 = self.peak.0 as i64 - self.lower.0 as i64;
            Fraction { numerator: numerator as u32, denominator: denominator as u32 }
        } else {
            let numerator: i64 = self.upper.0 as i64 - v as i64;
            let denominator: i64 = self.upper.0 as i64 - self.peak.0 as i64;
            Fraction { numerator: numerator as u32, denominator: denominator as u32 }
        }
    }
}

impl vstd::std_specs::convert::FromSpecImpl<(i32, i32, i32)> for Tent {
    open spec fn obeys_from_spec() -> bool {
        true
    }

    open spec fn from_spec(value: (i32, i32, i32)) -> Tent {
        Tent::spec_new(NormalizedCoord(value.0), NormalizedCoord(value.1), NormalizedCoord(value.2))
    }
}

impl From<(i32, i32, i32)> for Tent {
    fn from(value: (i32, i32, i32)) -> (tent: Tent) {
        Tent::new(
            NormalizedCoord::new(value.0),
            NormalizedCoord::new(value.1),
            NormalizedCoord::new(value.2),
        )
    }
}

/// A box of influence around one master: a tent for each axis that it names.
pub type VariationRegion = AxisMap<Tent>;

/// Some tent of the region takes all influence away at the location.
pub open spec fn blocked(region: Entries<Tent>, location: Entries<NormalizedCoord>) -> bool {
    exists|i: int|
        0 <= i < region.len() && (#[trigger] region[i]).1.excludes(
            coordinate(location, region[i].0),
        )
}

/// The heights at the location of the tents of the region that are neither
/// neutral there nor exclude it, in the order of the region's axes.
pub open spec fn slopes(region: Entries<Tent>, location: Entries<NormalizedCoord>) -> Seq<Fraction>
    decreases region.len(),
{
    if region.len() == 0 {
        Seq::empty()
    } else {
        let front = slopes(region.drop_last(), location);
        let (name, tent) = region.last();
        let v = coordinate(location, name);
        if tent.neutral_at(v) || tent.excludes(v) {
            front
        } else {
            front.push(tent.slope_at(v))
        }
    }
}

/// The factors of the influence of a region at a location.
///
/// The influence is zero where one tent excludes the location. Elsewhere it is
/// the product of the heights of the tents, where an axis that the region does
/// not name, a tent that is not valid, a tent at its peak and the tent that is
/// always on each count for one. An axis that the location does not name is
/// taken at zero.
pub open spec fn scalar(region: Entries<Tent>, location: Entries<NormalizedCoord>) -> Seq<Fraction> {
    if blocked(region, location) {
        seq![Fraction::zero()]
    } else {
        slopes(region, location)
    }
}

/// Every height that [`slopes`] holds is a proper fraction above zero.
pub proof fn lemma_slopes(region: Entries<Tent>, location: Entries<NormalizedCoord>)
    ensures
        all_proper(slopes(region, location)),
        forall|i: int|
            0 <= i < slopes(region, location).len() ==> (#[trigger] slopes(
                region,
                location,
            )[i]).numerator > 0,
    decreases region.len(),
{
    if region.len() > 0 {
        lemma_slopes(region.drop_last(), location);
    }
}

/// The influence of a region is zero exactly where one of its tents excludes
/// the location; it is never more than one.
pub proof fn lemma_scalar(region: Entries<Tent>, location: Entries<NormalizedCoord>)
    ensures
        all_proper(scalar(region, location)),
        numerator_of(scalar(region, location)) == 0 <==> blocked(region, location),
{
    lemma_slopes(region, location);
    let factors = scalar(region, location);
    lemma_product_zero(factors);
    if blocked(region, location) {
        assert(factors[0].numerator == 0);
    }
}

impl AxisMap<Tent> {
    /// Whether two regions name the same axes and have the same tent on each.
    pub fn equals(&self, other: &VariationRegion) -> (same: bool)
        ensures
            same == (self@ == other@),
    {
        if self.len() != other.len() {
            return false;
        }
        let mut i: usize = 0;
        while i < self.len()
            invariant
                i <= self@.len(),
                self@.len() == other@.len(),
                forall|k: int| 0 <= k < i ==> self@[k] == other@[k],
            decreases self@.len() - i,
        {
            proof {
                lemma_compare_names(self@[i as int].0, other@[i as int].0);
            }
            let names = compare_strs(self.name_at(i).as_str(), other.name_at(i).as_str());
            if names != Order::Equal || self.value_at(i) != other.value_at(i) {
                return false;
            }
            i += 1;
        }
        assert(self@ =~= other@);
        true
    }

    /// How much of the master of this region applies at `location`.
    /// See [`scalar`].
    pub fn scalar_at(&self, location: &NormalizedLocation) -> (weight: Weight)
        ensures
            weight@ == scalar(self@, location@),
    {
        let mut factors: Vec<Fraction> = Vec::new();
        let mut i: usize = 0;
        while i < self.len()
            invariant
                i <= self@.len(),
                forall|k: int|
                    0 <= k < i ==> !(#[trigger] self@[k]).1.excludes(
                        coordinate(location@, self@[k].0),
                    ),
                factors@ == slopes(self@.take(i as int), location@),
                all_proper(factors@),
            decreases self@.len() - i,
        {
            let tent = self.value_at(i);
            let v: i32 = match location.get(self.name_at(i).as_str()) {
                Some(coord) => coord.0,
                None => 0,
            };
            proof {
                assert(self@.take(i + 1).drop_last() =~= self@.take(i as int));
                assert(self@.take(i + 1).last() == self@[i as int]);
            }
            if tent.validate() && v != tent.peak.0 && !tent.is_always_on() {
                if v <= tent.lower.0 || tent.upper.0 <= v {
                    assert(self@[i as int].1.excludes(coordinate(location@, self@[i as int].0)));
                    return Weight::zero();
                }
                factors.push(tent.height_at(v));
            }
            i += 1;
        }
        assert(self@.take(i as int) =~= self@);
        Weight::product(factors)
    }
}

impl PartialEq for AxisMap<Tent> {
    fn eq(&self, other: &VariationRegion) -> (same: bool) {
        self.equals(other)
    }
}

impl vstd::std_specs::cmp::PartialEqSpecImpl for AxisMap<Tent> {
    open spec fn obeys_eq_spec() -> bool {
        true
    }

    open spec fn eq_spec(&self, other: &VariationRegion) -> bool {
        self@ == other@
    }
}

impl Eq for AxisMap<Tent> {

}

} // verus!
