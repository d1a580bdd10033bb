//! The order in which the masters of a model are resolved.
//!
//! Masters are ordered from most to least influential: the default master
//! first, then the masters that are away from the default on few axes, and
//! among those first the ones for which other masters lie on the same axis
//! positions. What follows in the key only breaks ties, so that the order
//! never depends on the order of the input.

use crate::axes::Entries;
use crate::coords::{coordinate, views, NormalizedCoord, NormalizedLocation};
use crate::order::{
    compare_int, compare_int_seqs, compare_name_seqs, compare_names, compare_numbers, compare_strs,
    lemma_compare_int_seqs, lemma_compare_int_seqs_transitive, lemma_compare_name_seqs,
    lemma_compare_name_seqs_transitive, lemma_compare_names, lex, Order,
};
use vstd::prelude::*;

verus! {

/// What an axis that is missing from the axis order counts as in
/// [`SortKey::known_axes`]: more than any index of an axis that is in it.
pub const UNKNOWN_AXIS: i128 = 0x10000;

/// The sort key of a location, as a mathematical value.
pub struct SortKey {
    /// The number of axes on which the location is away from zero.
    pub rank: int,
    /// Minus the number of axes on which the location is away from zero at a
    /// position where some location lies that is on that axis alone.
    pub on_axis_points: int,
    /// For each axis of the axis order on which the location is away from
    /// zero, its index in that order; then [`UNKNOWN_AXIS`] once for each
    /// other axis on which the location is away from zero.
    pub known_axes: Seq<int>,
    /// The names of the axes on which the location is away from zero: first
    /// those of the axis order, in that order, then the others by name.
    pub ordered_axes: Seq<Seq<char>>,
    /// The sign of the coordinate on each axis of `ordered_axes`.
    pub axis_value_signs: Seq<int>,
    /// The distance from zero on each axis of `ordered_axes`.
    pub axis_value_abs: Seq<int>,
}

/// The order of sort keys: that of their fields, the first field that differs
/// deciding.
#[verifier::opaque]
pub open spec fn compare_keys(a: SortKey, b: SortKey) -> Order {
    compare_int(a.rank, b.rank).then_with(
        compare_int(a.on_axis_points, b.on_axis_points).then_with(
            compare_int_seqs(a.known_axes, b.known_axes).then_with(
                compare_name_seqs(a.ordered_axes, b.ordered_axes).then_with(
                    compare_int_seqs(a.axis_value_signs, b.axis_value_signs).then_with(
                        compare_int_seqs(a.axis_value_abs, b.axis_value_abs),
                    ),
                ),
            ),
        ),
    )
}

/// The order of sort keys is total, and only a key equals itself.
pub proof fn lemma_compare_keys(a: SortKey, b: SortKey)
    ensures
        compare_keys(a, b) == compare_keys(b, a).flip(),
        compare_keys(a, b) == Order::Equal <==> a == b,
{
    reveal(compare_keys);
    lemma_compare_int_seqs(a.known_axes, b.known_axes);
    lemma_compare_name_seqs(a.ordered_axes, b.ordered_axes);
    lemma_compare_int_seqs(a.axis_value_signs, b.axis_value_signs);
    lemma_compare_int_seqs(a.axis_value_abs, b.axis_value_abs);
}

/// The order of sort keys is transitive.
pub proof fn lemma_compare_keys_transitive(a: SortKey, b: SortKey, c: SortKey)
    requires
        compare_keys(a, b) != Order::Greater,
        compare_keys(b, c) != Order::Greater,
    ensures
        compare_keys(a, c) != Order::Greater,
        compare_keys(a, b) == Order::Less || compare_keys(b, c) == Order::Less ==> compare_keys(a, c)
            == Order::Less,
{
    reveal(compare_keys);
    lemma_compare_keys(a, b);
    lemma_compare_keys(b, c);
    lemma_compare_keys(a, c);
    if a != b && b != c {
        lemma_compare_int_seqs(a.known_axes, b.known_axes);
        lemma_compare_int_seqs(b.known_axes, c.known_axes);
        lemma_compare_int_seqs(a.known_axes, c.known_axes);
        if compare_int_seqs(a.known_axes, b.known_axes) == Order::Less && compare_int_seqs(
            b.known_axes,
            c.known_axes,
        ) == Order::Less {
            lemma_compare_int_seqs_transitive(a.known_axes, b.known_axes, c.known_axes);
        }
        lemma_compare_name_seqs(a.ordered_axes, b.ordered_axes);
        lemma_compare_name_seqs(b.ordered_axes, c.ordered_axes);
        lemma_compare_name_seqs(a.ordered_axes, c.ordered_axes);
        if compare_name_seqs(a.ordered_axes, b.ordered_axes) == Order::Less && compare_name_seqs(
            b.ordered_axes,
            c.ordered_axes,
        ) == Order::Less {
            lemma_compare_name_seqs_transitive(a.ordered_axes, b.ordered_axes, c.ordered_axes);
        }
        lemma_compare_int_seqs(a.axis_value_signs, b.axis_value_signs);
        lemma_compare_int_seqs(b.axis_value_signs, c.axis_value_signs);
        lemma_compare_int_seqs(a.axis_value_signs, c.axis_value_signs);
        if compare_int_seqs(a.axis_value_signs, b.axis_value_signs) == Order::Less
            && compare_int_seqs(b.axis_value_signs, c.axis_value_signs) == Order::Less {
            lemma_compare_int_seqs_transitive(
                a.axis_value_signs,
                b.axis_value_signs,
                c.axis_value_signs,
            );
        }
        lemma_compare_int_seqs(a.axis_value_abs, b.axis_value_abs);
        lemma_compare_int_seqs(b.axis_value_abs, c.axis_value_abs);
        lemma_compare_int_seqs(a.axis_value_abs, c.axis_value_abs);
        if compare_int_seqs(a.axis_value_abs, b.axis_value_abs) == Order::Less && compare_int_seqs(
            b.axis_value_abs,
            c.axis_value_abs,
        ) == Order::Less {
            lemma_compare_int_seqs_transitive(a.axis_value_abs, b.axis_value_abs, c.axis_value_abs);
        }
    }
}

/// The location is away from zero on the axis `name` alone, at `value`.
pub open spec fn on_axis(location: Entries<NormalizedCoord>, name: Seq<char>, value: int) -> bool {
    value != 0 && exists|i: int|
        0 <= i < location.len() && (#[trigger] location[i]).0 == name && location[i].1@ == value
            && forall|j: int| 0 <= j < location.len() && j != i ==> (#[trigger] location[j]).1@ == 0
}

/// The axis positions at which a location lies that is on that axis alone.
pub open spec fn on_axis_points(locations: Seq<Entries<NormalizedCoord>>) -> Set<(Seq<char>, int)> {
    Set::new(
        |point: (Seq<char>, int)|
            exists|k: int|
                0 <= k < locations.len() && on_axis(#[trigger] locations[k], point.0, point.1),
    )
}

/// The number of axes on which the location is away from zero.
pub open spec fn rank_of(location: Entries<NormalizedCoord>) -> nat
    decreases location.len(),
{
    if location.len() == 0 {
        0
    } else {
        rank_of(location.drop_last()) + if location.last().1@ != 0 {
            1nat
        } else {
            0nat
        }
    }
}

/// The number of axes on which the location is away from zero at one of the
/// `points`.
pub open spec fn on_axis_hits(
    location: Entries<NormalizedCoord>,
    points: Set<(Seq<char>, int)>,
) -> nat
    decreases location.len(),
{
    if location.len() == 0 {
        0
    } else {
        let (name, coord) = location.last();
        on_axis_hits(location.drop_last(), points) + if coord@ != 0 && points.contains(
            (name, coord@),
        ) {
            1nat
        } else {
            0nat
        }
    }
}

/// The indices in `axis_order` of the axes on which the location is away from
/// zero, in increasing order.
pub open spec fn known_indices(
    axis_order: Seq<Seq<char>>,
    location: Entries<NormalizedCoord>,
) -> Seq<int>
    decreases axis_order.len(),
{
    if axis_order.len() == 0 {
        Seq::empty()
    } else {
        let front = known_indices(axis_order.drop_last(), location);
        if coordinate(location, axis_order.last()) != 0 {
            front.push(axis_order.len() - 1)
        } else {
            front
        }
    }
}

/// The axes of `axis_order` on which the location is away from zero, in the
/// order of `axis_order`.
pub open spec fn known_names(
    axis_order: Seq<Seq<char>>,
    location: Entries<NormalizedCoord>,
) -> Seq<Seq<char>>
    decreases axis_order.len(),
{
    if axis_order.len() == 0 {
        Seq::empty()
    } else {
        let front = known_names(axis_order.drop_last(), location);
        if coordinate(location, axis_order.last()) != 0 {
            front.push(axis_order.last())
        } else {
            front
        }
    }
}

/// The axes on which the location is away from zero and which are missing
/// from `axis_order`, in increasing order of name.
pub open spec fn unknown_names(
    axis_order: Seq<Seq<char>>,
    location: Entries<NormalizedCoord>,
) -> Seq<Seq<char>>
    decreases location.len(),
{
    if location.len() == 0 {
        Seq::empty()
    } else {
        let front = unknown_names(axis_order, location.drop_last());
        let (name, coord) = location.last();
        if coord@ != 0 && !axis_order.contains(name) {
            front.push(name)
        } else {
            front
        }
    }
}

/// The sign of a number: -1, 0 or 1.
pub open spec fn signum(v: int) -> int {
    if v > 0 {
        1
    } else if v < 0 {
        -1
    } else {
        0
    }
}

/// The distance of a number from zero.
pub open spec fn magnitude(v: int) -> int {
    if v < 0 {
        -v
    } else {
        v
    }
}

/// The sort key of `location` in a model with the axis order `axis_order`, in
/// which `points` are the axis positions that some master lies on alone.
#[verifier::opaque]
pub open spec fn sort_key(
    axis_order: Seq<Seq<char>>,
    points: Set<(Seq<char>, int)>,
    location: Entries<NormalizedCoord>,
) -> SortKey {
    let unknown = unknown_names(axis_order, location);
    let ordered_axes = known_names(axis_order, location) + unknown;
    SortKey {
        rank: rank_of(location) as int,
        on_axis_points: -(on_axis_hits(location, points) as int),
        known_axes: known_indices(axis_order, location) + Seq::new(
            unknown.len(),
            |i: int| UNKNOWN_AXIS as int,
        ),
        ordered_axes,
        axis_value_signs: Seq::new(
            ordered_axes.len(),
            |i: int| signum(coordinate(location, ordered_axes[i])),
        ),
        axis_value_abs: Seq::new(
            ordered_axes.len(),
            |i: int| magnitude(coordinate(location, ordered_axes[i])),
        ),
    }
}

/// No location of the sequence has a smaller sort key than one before it.
pub open spec fn in_key_order(
    axis_order: Seq<Seq<char>>,
    points: Set<(Seq<char>, int)>,
    locations: Seq<Entries<NormalizedCoord>>,
) -> bool {
    forall|a: int, b: int|
        0 <= a < b < locations.len() ==> compare_keys(
            sort_key(axis_order, points, #[trigger] locations[a]),
            sort_key(axis_order, points, #[trigger] locations[b]),
        ) != Order::Greater
}

/// The number of locations at the front of `locations` whose sort keys are
/// not greater than that of `location`.
pub open spec fn place_by_key(
    axis_order: Seq<Seq<char>>,
    points: Set<(Seq<char>, int)>,
    locations: Seq<Entries<NormalizedCoord>>,
    location: Entries<NormalizedCoord>,
) -> int
    decreases locations.len(),
{
    if locations.len() == 0 || compare_keys(
        sort_key(axis_order, points, locations[0]),
        sort_key(axis_order, points, location),
    ) == Order::Greater {
        0
    } else {
        1 + place_by_key(axis_order, points, locations.skip(1), location)
    }
}

/// The locations in the order of their sort keys, where those with equal
/// keys keep the order in which they stand: each location in turn is put
/// behind the locations before it whose keys are not greater.
pub open spec fn sorted_by_key(
    axis_order: Seq<Seq<char>>,
    points: Set<(Seq<char>, int)>,
    locations: Seq<Entries<NormalizedCoord>>,
) -> Seq<Entries<NormalizedCoord>>
    decreases locations.len(),
{
    if locations.len() == 0 {
        Seq::empty()
    } else {
        let front = sorted_by_key(axis_order, points, locations.drop_last());
        front.insert(place_by_key(axis_order, points, front, locations.last()), locations.last())
    }
}

/// The sort key of a location. See [`SortKey`] for what the fields hold.
#[derive(Debug)]
pub struct LocationSortKey {
    pub rank: usize,
    pub on_axis_points: i128,
    pub known_axes: Vec<i128>,
    pub ordered_axes: Vec<String>,
    pub axis_value_signs: Vec<i128>,
    pub axis_value_abs: Vec<i128>,
}

/// The numbers of a vector, as integers.
pub open spec fn ints(numbers: Seq<i128>) -> Seq<int> {
    numbers.map_values(|x: i128| x as int)
}

impl View for LocationSortKey {
    type V = SortKey;

    open spec fn view(&self) -> SortKey {
        SortKey {
            rank: self.rank as int,
            on_axis_points: self.on_axis_points as int,
            known_axes: ints(self.known_axes@),
            ordered_axes: names(self.ordered_axes@),
            axis_value_signs: ints(self.axis_value_signs@),
            axis_value_abs: ints(self.axis_value_abs@),
        }
    }
}

/// Compares two sequences of names in lexicographic order.
pub fn compare_name_lists(a: &Vec<String>, b: &Vec<String>) -> (order: Order)
    ensures
        order == compare_name_seqs(names(a@), names(b@)),
{
    let ghost ord = |x: Seq<char>, y: Seq<char>| compare_names(x, y);
    let ghost sa = names(a@);
    let ghost sb = names(b@);
    let mut i: usize = 0;
    assert(sa.skip(0) =~= sa && sb.skip(0) =~= sb);
    while i < a.len() && i < b.len()
        invariant
            i <= a.len(),
            i <= b.len(),
            ord == (|x: Seq<char>, y: Seq<char>| compare_names(x, y)),
            sa == names(a@),
            sb == names(b@),
            sa.len() == a.len(),
            sb.len() == b.len(),
            lex(sa, sb, ord) == lex(
                sa.skip(i as int),
                sb.skip(i as int),
                ord,
            ),
        decreases a.len() - i,
    {
        proof {
            assert(sa.skip(i as int).skip(1) =~= sa.skip(i + 1));
            assert(sb.skip(i as int).skip(1) =~= sb.skip(i + 1));
            assert(sa[i as int] == a@[i as int]@);
            assert(sb[i as int] == b@[i as int]@);
        }
        match compare_strs(a[i].as_str(), b[i].as_str()) {
            Order::Less => {
                return Order::Less;
            },
            Order::Greater => {
                return Order::Greater;
            },
            Order::Equal => {},
        }
        i += 1;
    }
    proof {
        assert(sa.skip(sa.len() as int).len() == 0);
        assert(sb.skip(sb.len() as int).len() == 0);
    }
    if i < b.len() {
        Order::Less
    } else if i < a.len() {
        Order::Greater
    } else {
        Order::Equal
    }
}

impl LocationSortKey {
    /// Compares two sort keys. See [`compare_keys`].
    pub fn compare(&self, other: &LocationSortKey) -> (order: Order)
        ensures
            order == compare_keys(self@, other@),
    {
        reveal(compare_keys);
        if self.rank < other.rank {
            return Order::Less;
        }
        if self.rank > other.rank {
            return Order::Greater;
        }
        if self.on_axis_points < other.on_axis_points {
            return Order::Less;
        }
        if self.on_axis_points > other.on_axis_points {
            return Order::Greater;
        }
        match compare_numbers(&self.known_axes, &other.known_axes) {
            Order::Less => {
                return Order::Less;
            },
            Order::Greater => {
                return Order::Greater;
            },
            Order::Equal => {},
        }
        match compare_name_lists(&self.ordered_axes, &other.ordered_axes) {
            Order::Less => {
                return Order::Less;
            },
            Order::Greater => {
                return Order::Greater;
            },
            Order::Equal => {},
        }
        match compare_numbers(&self.axis_value_signs, &other.axis_value_signs) {
            Order::Less => {
                return Order::Less;
            },
            Order::Greater => {
                return Order::Greater;
            },
            Order::Equal => {},
        }
        compare_numbers(&self.axis_value_abs, &other.axis_value_abs)
    }
}

/// The names of a vector, as mathematical values.
pub open spec fn names(strings: Seq<String>) -> Seq<Seq<char>> {
    Seq::new(strings.len(), |i: int| strings[i]@)
}

/// Whether `name` is one of `list`.
pub fn contains_name(list: &Vec<String>, name: &str) -> (found: bool)
    ensures
        found == names(list@).contains(name@),
{
    let mut i: usize = 0;
    while i < list.len()
        invariant
            i <= list.len(),
            forall|k: int| 0 <= k < i ==> names(list@)[k] != name@,
        decreases list.len() - i,
    {
        proof {
            lemma_compare_names(list@[i as int]@, name@);
            assert(names(list@)[i as int] == list@[i as int]@);
        }
        if compare_strs(list[i].as_str(), name) == Order::Equal {
            return true;
        }
        i += 1;
    }
    false
}

/// What the sort keys of one model are computed from: the order of its axes,
/// and the axis positions at which one of its masters lies on that axis alone.
#[derive(Debug)]
pub struct LocationSortingHat {
    axis_order: Vec<String>,
    on_axis_points: Vec<(String, NormalizedCoord)>,
}

/// The points that a vector of names and coordinates holds.
pub open spec fn point_set(points: Seq<(String, NormalizedCoord)>) -> Set<(Seq<char>, int)> {
    Set::new(
        |point: (Seq<char>, int)|
            exists|j: int|
                0 <= j < points.len() && (#[trigger] points[j]).0@ == point.0 && points[j].1@
                    == point.1,
    )
}

/// What a scan of the first `upto` coordinates of a location has found: no
/// coordinate away from zero, one (at `found`), or several.
spec fn scanned(
    location: Entries<NormalizedCoord>,
    upto: int,
    found: Option<usize>,
    several: bool,
) -> bool {
    if several {
        exists|a: int, b: int|
            0 <= a < b < upto && (#[trigger] location[a]).1@ != 0 && (#[trigger] location[b]).1@ != 0
    } else {
        match found {
            None => forall|j: int| 0 <= j < upto ==> (#[trigger] location[j]).1@ == 0,
            Some(f) => f < upto && location[f as int].1@ != 0 && forall|j: int|
                0 <= j < upto && j != f ==> (#[trigger] location[j]).1@ == 0,
        }
    }
}

/// A finished scan says whether, and where, the location is on one axis alone.
proof fn lemma_scanned(
    location: Entries<NormalizedCoord>,
    found: Option<usize>,
    several: bool,
    name: Seq<char>,
    value: int,
)
    requires
        scanned(location, location.len() as int, found, several),
    ensures
        on_axis(location, name, value) <==> (!several && found.is_some()
            && location[found.unwrap() as int] == (name, NormalizedCoord(value as i32)) && value
            == location[found.unwrap() as int].1@),
{
    if on_axis(location, name, value) {
        let i = choose|i: int|
            0 <= i < location.len() && (#[trigger] location[i]).0 == name && location[i].1@ == value
                && forall|j: int|
                0 <= j < location.len() && j != i ==> (#[trigger] location[j]).1@ == 0;
        assert(!several) by {
            if several {
                let (a, b) = choose|a: int, b: int|
                    0 <= a < b < location.len() && (#[trigger] location[a]).1@ != 0 && (
                    #[trigger] location[b]).1@ != 0;
                assert(a != i || b != i);
            }
        }
        match found {
            None => {
                assert(location[i].1@ == 0);
            },
            Some(f) => {
                if f != i {
                    assert(location[f as int].1@ == 0);
                }
            },
        }
    }
    if !several && found.is_some() && location[found.unwrap() as int] == (
        name,
        NormalizedCoord(value as i32),
    ) && value == location[found.unwrap() as int].1@ {
        let f = found.unwrap() as int;
        assert(location[f].0 == name && location[f].1@ == value);
    }
}

impl LocationSortingHat {
    /// The order of the axes, most important first.
    pub closed spec fn axis_order(&self) -> Seq<Seq<char>> {
        names(self.axis_order@)
    }

    /// The axis positions at which a master lies on that axis alone.
    pub closed spec fn points(&self) -> Set<(Seq<char>, int)> {
        point_set(self.on_axis_points@)
    }

    /// What the sort keys of `locations` are computed from, with `axis_order`
    /// as the order of the axes.
    pub fn new(locations: &[NormalizedLocation], axis_order: Vec<String>) -> (hat: LocationSortingHat)
        ensures
            hat.axis_order() == names(axis_order@),
            hat.points() == on_axis_points(views(locations@)),
    {
        let mut points: Vec<(String, NormalizedCoord)> = Vec::new();
        let mut k: usize = 0;
        assert(point_set(points@) =~= on_axis_points(views(locations@.take(0))));
        while k < locations.len()
            invariant
                k <= locations.len(),
                point_set(points@) == on_axis_points(views(locations@.take(k as int))),
            decreases locations.len() - k,
        {
            let location = &locations[k];
            let mut found: Option<usize> = None;
            let mut several = false;
            let mut i: usize = 0;
            while i < location.len()
                invariant
                    i <= location@.len(),
                    scanned(location@, i as int, found, several),
                decreases location@.len() - i,
            {
                if location.value_at(i).0 != 0 {
                    if found.is_some() {
                        proof {
                            if !several {
                                let f = found.unwrap() as int;
                                assert(location@[f].1@ != 0 && location@[i as int].1@ != 0);
                            } else {
                                let (a, b) = choose|a: int, b: int|
                                    0 <= a < b < i && (#[trigger] location@[a]).1@ != 0 && (
                                    #[trigger] location@[b]).1@ != 0;
                                assert(location@[a].1@ != 0 && location@[b].1@ != 0);
                            }
                        }
                        several = true;
                    } else {
                        found = Some(i);
                    }
                }
                i += 1;
            }
            let ghost before = points@;
            let ghost earlier = views(locations@.take(k as int));
            let ghost now = views(locations@.take(k + 1));
            if !several {
                if let Some(f) = found {
                    points.push((location.name_at(f).clone(), location.value_at(f)));
                }
            }
            proof {
                assert(now.len() == k + 1);
                assert(now[k as int] == location@);
                assert forall|point: (Seq<char>, int)|
                    point_set(points@).contains(point) == on_axis_points(now).contains(point) by {
                    lemma_scanned(location@, found, several, point.0, point.1);
                    if on_axis_points(now).contains(point) {
                        let w = choose|w: int|
                            0 <= w < now.len() && on_axis(#[trigger] now[w], point.0, point.1);
                        if w < k {
                            assert(earlier[w] == now[w]);
                            assert(on_axis_points(earlier).contains(point));
                            assert(point_set(before).contains(point));
                            let j = choose|j: int|
                                0 <= j < before.len() && (#[trigger] before[j]).0@ == point.0
                                    && before[j].1@ == point.1;
                            assert(points@[j] == before[j]);
                        } else {
                            assert(on_axis(location@, point.0, point.1));
                            let last = points@.len() - 1;
                            assert(points@[last].0@ == point.0 && points@[last].1@ == point.1);
                        }
                    }
                    if point_set(points@).contains(point) {
                        let j = choose|j: int|
                            0 <= j < points@.len() && (#[trigger] points@[j]).0@ == point.0
                                && points@[j].1@ == point.1;
                        if j < before.len() {
                            assert(before[j] == points@[j]);
                            assert(point_set(before).contains(point));
                            let w = choose|w: int|
                                0 <= w < earlier.len() && on_axis(
                                    #[trigger] earlier[w],
                                    point.0,
                                    point.1,
                                );
                            assert(now[w] == earlier[w]);
                        } else {
                            assert(on_axis(now[k as int], point.0, point.1));
                        }
                    }
                }
                assert(point_set(points@) =~= on_axis_points(now));
            }
            k += 1;
        }
        assert(locations@.take(k as int) =~= locations@);
        LocationSortingHat { axis_order, on_axis_points: points }
    }

    /// The sort key of `location`. See [`sort_key`].
    pub fn key_for(&self, location: &NormalizedLocation) -> (key: LocationSortKey)
        ensures
            key@ == sort_key(self.axis_order(), self.points(), location@),
    {
        let ghost order = self.axis_order();
        let ghost points = self.points();
        let mut known_axes: Vec<i128> = Vec::new();
        let mut ordered_axes: Vec<String> = Vec::new();

        // the axes of the axis order on which the location is away from zero
        let mut k: usize = 0;
        assert(order.take(0) =~= Seq::<Seq<char>>::empty());
        assert(ints(known_axes@) =~= known_indices(order.take(0), location@));
        assert(names(ordered_axes@) =~= known_names(order.take(0), location@));
        while k < self.axis_order.len()
            invariant
                k <= self.axis_order.len(),
                order == self.axis_order(),
                order.len() == self.axis_order.len(),
                ints(known_axes@) == known_indices(order.take(k as int), location@),
                names(ordered_axes@) == known_names(order.take(k as int), location@),
            decreases self.axis_order.len() - k,
        {
            let name = &self.axis_order[k];
            proof {
                assert(order.take(k + 1).drop_last() =~= order.take(k as int));
                assert(order.take(k + 1).last() == name@);
            }
            if location.has_non_zero(name.as_str()) {
                let ghost indices = known_axes@;
                let ghost axes = ordered_axes@;
                known_axes.push(k as i128);
                ordered_axes.push(name.clone());
                assert(ints(known_axes@) =~= ints(indices).push(k as int));
                assert(names(ordered_axes@) =~= names(axes).push(name@));
            }
            k += 1;
        }
        assert(order.take(k as int) =~= order);

        // the rank, the positions shared with a master on one axis alone, and
        // the axes that the axis order does not hold
        let mut rank: usize = 0;
        let mut on_axis_points: i128 = 0;
        let mut i: usize = 0;
        let ghost entries = location@;
        assert(entries.take(0) =~= Entries::<NormalizedCoord>::empty());
        assert(ints(known_axes@) =~= known_indices(order, entries) + Seq::new(
            unknown_names(order, entries.take(0)).len(),
            |j: int| UNKNOWN_AXIS as int,
        ));
        assert(names(ordered_axes@) =~= known_names(order, entries) + unknown_names(
            order,
            entries.take(0),
        ));
        while i < location.len()
            invariant
                i <= entries.len(),
                entries == location@,
                order == self.axis_order(),
                points == self.points(),
                rank == rank_of(entries.take(i as int)),
                rank <= i,
                on_axis_points == -(on_axis_hits(entries.take(i as int), points) as int),
                -(i as int) <= on_axis_points <= 0,
                ints(known_axes@) == known_indices(order, entries) + Seq::new(
                    unknown_names(order, entries.take(i as int)).len(),
                    |j: int| UNKNOWN_AXIS as int,
                ),
                names(ordered_axes@) == known_names(order, entries) + unknown_names(
                    order,
                    entries.take(i as int),
                ),
            decreases entries.len() - i,
        {
            let name = location.name_at(i);
            let coord = location.value_at(i);
            proof {
                assert(entries.take(i + 1).drop_last() =~= entries.take(i as int));
                assert(entries.take(i + 1).last() == entries[i as int]);
            }
            if coord.0 != 0 {
                rank += 1;
                if self.is_on_axis_point(name.as_str(), coord) {
                    on_axis_points -= 1;
                }
                if !contains_name(&self.axis_order, name.as_str()) {
                    let ghost indices = known_axes@;
                    let ghost axes = ordered_axes@;
                    known_axes.push(UNKNOWN_AXIS);
                    ordered_axes.push(name.clone());
                    assert(ints(known_axes@) =~= ints(indices).push(UNKNOWN_AXIS as int));
                    assert(names(ordered_axes@) =~= names(axes).push(name@));
                    assert(ints(known_axes@) =~= known_indices(order, entries) + Seq::new(
                        unknown_names(order, entries.take(i + 1)).len(),
                        |j: int| UNKNOWN_AXIS as int,
                    ));
                    assert(names(ordered_axes@) =~= known_names(order, entries) + unknown_names(
                        order,
                        entries.take(i + 1),
                    ));
                }
            }
            i += 1;
        }
        assert(entries.take(i as int) =~= entries);

        // the sign and the distance from zero on each of the ordered axes
        let mut axis_value_signs: Vec<i128> = Vec::new();
        let mut axis_value_abs: Vec<i128> = Vec::new();
        let mut n: usize = 0;
        let ghost ordered = names(ordered_axes@);
        while n < ordered_axes.len()
            invariant
                n <= ordered_axes.len(),
                ordered == names(ordered_axes@),
                entries == location@,
                axis_value_signs@.len() == n,
                axis_value_abs@.len() == n,
                forall|j: int|
                    0 <= j < n ==> #[trigger] axis_value_signs@[j] == signum(
                        coordinate(entries, ordered[j]),
                    ),
                forall|j: int|
                    0 <= j < n ==> #[trigger] axis_value_abs@[j] == magnitude(
                        coordinate(entries, ordered[j]),
                    ),
            decreases ordered_axes.len() - n,
        {
            let v: i32 = match location.get(ordered_axes[n].as_str()) {
                Some(coord) => coord.0,
                None => 0,
            };
            assert(v == coordinate(entries, ordered[n as int]));
            let sign: i128 = if v > 0 {
                1
            } else if v < 0 {
                -1
            } else {
                0
            };
            let distance: i128 = if v < 0 {
                -(v as i128)
            } else {
                v as i128
            };
            axis_value_signs.push(sign);
            axis_value_abs.push(distance);
            n += 1;
        }
        let key = LocationSortKey {
            rank,
            on_axis_points,
            known_axes,
            ordered_axes,
            axis_value_signs,
            axis_value_abs,
        };
        proof {
            reveal(sort_key);
            let wanted = sort_key(order, points, entries);
            assert(key@.ordered_axes =~= wanted.ordered_axes);
            assert(key@.known_axes =~= wanted.known_axes);
            assert(key@.axis_value_signs =~= wanted.axis_value_signs);
            assert(key@.axis_value_abs =~= wanted.axis_value_abs);
        }
        key
    }

    /// The locations in increasing order of their sort keys, where those with
    /// equal keys keep their order. See [`sorted_by_key`].
    ///
    /// The result holds each location as often as `locations` does.
    pub fn sort(&self, locations: &Vec<NormalizedLocation>) -> (sorted: Vec<NormalizedLocation>)
        ensures
            views(sorted@) == sorted_by_key(self.axis_order(), self.points(), views(locations@)),
            views(sorted@).to_multiset() == views(locations@).to_multiset(),
            sorted@.len() == locations@.len(),
            in_key_order(self.axis_order(), self.points(), views(sorted@)),
    {
        let ghost order = self.axis_order();
        let ghost points = self.points();
        let mut sorted: Vec<NormalizedLocation> = Vec::new();
        let mut keys: Vec<LocationSortKey> = Vec::new();
        let mut i: usize = 0;
        assert(views(sorted@) =~= views(locations@.take(0)));
        while i < locations.len()
            invariant
                i <= locations.len(),
                order == self.axis_order(),
                points == self.points(),
                sorted@.len() == i,
                keys@.len() == i,
                forall|j: int|
                    0 <= j < i ==> (#[trigger] keys@[j])@ == sort_key(order, points, sorted@[j]@),
                views(sorted@).to_multiset() == views(locations@.take(i as int)).to_multiset(),
                views(sorted@) == sorted_by_key(order, points, views(locations@.take(i as int))),
                in_key_order(order, points, views(sorted@)),
            decreases locations.len() - i,
        {
            let location = locations[i].clone();
            let key = self.key_for(&location);
            let mut at: usize = 0;
            let ghost standing = views(sorted@);
            assert(standing.skip(0) =~= standing);
            while at < keys.len() && keys[at].compare(&key) != Order::Greater
                invariant
                    at <= keys@.len(),
                    keys@.len() == standing.len(),
                    key@ == sort_key(order, points, location@),
                    forall|j: int|
                        0 <= j < keys@.len() ==> (#[trigger] keys@[j])@ == sort_key(
                            order,
                            points,
                            standing[j],
                        ),
                    forall|j: int|
                        0 <= j < at ==> compare_keys((#[trigger] keys@[j])@, key@) != Order::Greater,
                    place_by_key(order, points, standing, location@) == at + place_by_key(
                        order,
                        points,
                        standing.skip(at as int),
                        location@,
                    ),
                decreases keys@.len() - at,
            {
                assert(standing.skip(at as int).skip(1) =~= standing.skip(at + 1));
                assert(standing.skip(at as int)[0] == standing[at as int]);
                at += 1;
            }
            proof {
                if at < keys.len() {
                    assert(standing.skip(at as int)[0] == standing[at as int]);
                }
                assert(place_by_key(order, points, standing, location@) == at);
                assert(views(locations@.take(i + 1)).drop_last() =~= views(
                    locations@.take(i as int),
                ));
                assert(views(locations@.take(i + 1)).last() == location@);
            }
            let ghost before = views(sorted@);
            let ghost keys_before = keys@;
            sorted.insert(at, location);
            keys.insert(at, key);
            proof {
                let after = views(sorted@);
                assert(after =~= before.insert(at as int, location@));
                vstd::seq_lib::to_multiset_insert(before, at as int, location@);
                let taken = views(locations@.take(i as int));
                assert(views(locations@.take(i + 1)) =~= taken.push(location@));
                vstd::seq_lib::to_multiset_build(taken, location@);
                assert forall|a: int, b: int| 0 <= a < b < after.len() implies compare_keys(
                    sort_key(order, points, #[trigger] after[a]),
                    sort_key(order, points, #[trigger] after[b]),
                ) != Order::Greater by {
                    let from = |k: int|
                        if k < at {
                            k
                        } else {
                            k - 1
                        };
                    if a != at {
                        assert(after[a] == before[from(a)]);
                        assert(keys_before[from(a)]@ == sort_key(order, points, after[a]));
                    }
                    if b != at {
                        assert(after[b] == before[from(b)]);
                        assert(keys_before[from(b)]@ == sort_key(order, points, after[b]));
                    }
                    if a == at {
                        // the new key is less than the key that stood at its place
                        assert(from(b) >= at);
                        lemma_compare_keys(keys_before[at as int]@, key@);
                        if from(b) > at {
                            assert(before[at as int] == sorted@[at + 1]@);
                            assert(compare_keys(
                                sort_key(order, points, before[at as int]),
                                sort_key(order, points, before[from(b)]),
                            ) != Order::Greater);
                            lemma_compare_keys_transitive(
                                key@,
                                keys_before[at as int]@,
                                keys_before[from(b)]@,
                            );
                        }
                    } else if b == at {
                    } else {
                        assert(compare_keys(
                            sort_key(order, points, before[from(a)]),
                            sort_key(order, points, before[from(b)]),
                        ) != Order::Greater);
                    }
                }
                assert forall|j: int| 0 <= j < i + 1 implies (#[trigger] keys@[j])@ == sort_key(
                    order,
                    points,
                    sorted@[j]@,
                ) by {
                    if j < at {
                        assert(keys@[j] == keys_before[j]);
                    } else if j > at {
                        assert(keys@[j] == keys_before[j - 1]);
                        assert(sorted@[j]@ == before[j - 1]);
                    }
                }
            }
            i += 1;
        }
        assert(locations@.take(i as int) =~= locations@);
        sorted
    }

    /// Whether some master lies at `coord` on the axis `name` alone.
    fn is_on_axis_point(&self, name: &str, coord: NormalizedCoord) -> (hit: bool)
        ensures
            hit == self.points().contains((name@, coord@)),
    {
        let mut j: usize = 0;
        while j < self.on_axis_points.len()
            invariant
                j <= self.on_axis_points.len(),
                forall|k: int|
                    0 <= k < j ==> !((#[trigger] self.on_axis_points@[k]).0@ == name@
                        && self.on_axis_points@[k].1@ == coord@),
            decreases self.on_axis_points.len() - j,
        {
            proof {
                lemma_compare_names(self.on_axis_points@[j as int].0@, name@);
            }
            if self.on_axis_points[j].1.0 == coord.0 && compare_strs(
                self.on_axis_points[j].0.as_str(),
                name,
            ) == Order::Equal {
                return true;
            }
            j += 1;
        }
        false
    }
}

} // verus!
