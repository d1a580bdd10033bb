//! Positions in normalized design space.

use crate::axes::{lookup, put, AxisMap, Entries};
use crate::order::{compare_int, compare_names, compare_strs, lemma_compare_names, lex, Order};
use vstd::prelude::*;

verus! {

/// A position on one axis, counted in steps of a grid that the caller chooses.
///
/// Zero is the default position of the axis. Every rule of this crate depends
/// only on the order of coordinates and on ratios of their differences, so the
/// size of a step never matters as long as one model uses one grid.
#[derive(Clone, Copy, Debug, PartialEq, Eq, Structural)]
pub struct NormalizedCoord(pub i32);

impl View for NormalizedCoord {
    type V = int;

    open spec fn view(&self) -> int {
        self.0 as int
    }
}

impl NormalizedCoord {
    /// The coordinate `steps` grid steps away from the default.
    pub fn new(steps: i32) -> (coord: NormalizedCoord)
        ensures
            coord == NormalizedCoord(steps),
    {
        NormalizedCoord(steps)
    }

    /// The number of grid steps from the default.
    pub fn into_inner(self) -> (steps: i32)
        ensures
            steps == self.0,
    {
        self.0
    }
}

/// A point in design space: a coordinate for each axis that it names.
///
/// An axis that a location does not name is not the same as an axis at zero:
/// two locations are equal when they name the same axes and agree on each.
pub type NormalizedLocation = AxisMap<NormalizedCoord>;

/// The coordinate of a location on the axis `name`: zero where the location
/// does not name the axis.
pub open spec fn coordinate(location: Entries<NormalizedCoord>, name: Seq<char>) -> int {
    match lookup(location, name) {
        Some(coord) => coord@,
        None => 0,
    }
}

/// The locations of a sequence, as mathematical values.
pub open spec fn views(locations: Seq<NormalizedLocation>) -> Seq<Entries<NormalizedCoord>> {
    Seq::new(locations.len(), |i: int| locations[i]@)
}

/// Every coordinate of the location is zero.
pub open spec fn all_zero(location: Entries<NormalizedCoord>) -> bool {
    forall|i: int| 0 <= i < location.len() ==> (#[trigger] location[i]).1@ == 0
}

/// The order of two entries of locations: by name, then by coordinate.
pub open spec fn compare_positions(
    a: (Seq<char>, NormalizedCoord),
    b: (Seq<char>, NormalizedCoord),
) -> Order {
    compare_names(a.0, b.0).then_with(compare_int(a.1@, b.1@))
}

/// The order of locations: the lexicographic order of their entries, which
/// stand in the order of their names.
pub open spec fn compare_locations(
    a: Entries<NormalizedCoord>,
    b: Entries<NormalizedCoord>,
) -> Order {
    lex(
        a,
        b,
        |x: (Seq<char>, NormalizedCoord), y: (Seq<char>, NormalizedCoord)| compare_positions(x, y),
    )
}

impl AxisMap<NormalizedCoord> {
    /// Places the location at `coord` on the axis `name`.
    pub fn set_pos(&mut self, name: String, coord: NormalizedCoord)
        ensures
            final(self)@ == put(old(self)@, name@, coord),
    {
        self.insert(name, coord)
    }

    /// Whether the location is away from zero on the axis `name`.
    pub fn has_non_zero(&self, name: &str) -> (away: bool)
        ensures
            away == (coordinate(self@, name@) != 0),
    {
        match self.get(name) {
            Some(coord) => coord.0 != 0,
            None => false,
        }
    }

    /// Compares two locations. See [`compare_locations`].
    pub fn compare(&self, other: &NormalizedLocation) -> (order: Order)
        ensures
            order == compare_locations(self@, other@),
    {
        let ghost ord = |x: (Seq<char>, NormalizedCoord), y: (Seq<char>, NormalizedCoord)|
            compare_positions(x, y);
        let mut i: usize = 0;
        assert(self@.skip(0) =~= self@ && other@.skip(0) =~= other@);
        while i < self.len() && i < other.len()
            invariant
                i <= self@.len(),
                i <= other@.len(),
                ord == (|x: (Seq<char>, NormalizedCoord), y: (Seq<char>, NormalizedCoord)|
                    compare_positions(x, y)),
                lex(self@, other@, ord) == lex(self@.skip(i as int), other@.skip(i as int), ord),
            decreases self@.len() - i,
        {
            proof {
                assert(self@.skip(i as int).skip(1) =~= self@.skip(i + 1));
                assert(other@.skip(i as int).skip(1) =~= other@.skip(i + 1));
            }
            match compare_strs(self.name_at(i).as_str(), other.name_at(i).as_str()) {
                Order::Less => {
                    return Order::Less;
                },
                Order::Greater => {
                    return Order::Greater;
                },
                Order::Equal => {},
            }
            let mine = self.value_at(i).0;
            let theirs = other.value_at(i).0;
            if mine < theirs {
                return Order::Less;
            }
            if mine > theirs {
                return Order::Greater;
            }
            i += 1;
        }
        proof {
            assert(self@.skip(self@.len() as int).len() == 0);
            assert(other@.skip(other@.len() as int).len() == 0);
        }
        if i < other.len() {
            Order::Less
        } else if i < self.len() {
            Order::Greater
        } else {
            Order::Equal
        }
    }

    /// Whether two locations name the same axes and agree on each.
    pub fn equals(&self, other: &NormalizedLocation) -> (same: bool)
        ensures
            same == (self@ == other@),
    {
        if self.len() != other.len() {
            return false;
        }
        let mut i: usize = 0;
        while i < self.len()
            invariant
                i <= self@.len(),
                self@.len() == other@.len(),
                forall|k: int| 0 <= k < i ==> self@[k] == other@[k],
            decreases self@.len() - i,
        {
            proof {
                lemma_compare_names(self@[i as int].0, other@[i as int].0);
            }
            let names = compare_strs(self.name_at(i).as_str(), other.name_at(i).as_str());
            if names != Order::Equal || self.value_at(i).0 != other.value_at(i).0 {
                return false;
            }
            i += 1;
        }
        assert(self@ =~= other@);
        true
    }
}

impl PartialEq for AxisMap<NormalizedCoord> {
    fn eq(&self, other: &NormalizedLocation) -> (same: bool) {
        self.equals(other)
    }
}

impl vstd::std_specs::cmp::PartialEqSpecImpl for AxisMap<NormalizedCoord> {
    open spec fn obeys_eq_spec() -> bool {
        true
    }

    open spec fn eq_spec(&self, other: &NormalizedLocation) -> bool {
        self@ == other@
    }
}

impl Eq for AxisMap<NormalizedCoord> {

}

} // verus!
