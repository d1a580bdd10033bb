//! The model against a plain rendering of its rules in floating point, on
//! families drawn at random.

use std::collections::{BTreeMap, BTreeSet};

use fontmodel::axes::AxisMap;
use fontmodel::coords::{NormalizedCoord, NormalizedLocation};
use fontmodel::variations::VariationModel;
use fontmodel::vector::{Point, Vector};
use fontmodel::weight::Weight;

/// The steps of the grid to the unit. The coordinates of the families are
/// multiples of a quarter.
const STEPS: f32 = 4096.0;

type Place = BTreeMap<String, f32>;
type Box3 = BTreeMap<String, (f32, f32, f32)>;

struct Dice(u64);

impl Dice {
    fn roll(&mut self, sides: usize) -> usize {
        self.0 = self
            .0
            .wrapping_mul(6364136223846793005)
            .wrapping_add(1442695040888963407);
        ((self.0 >> 33) % sides as u64) as usize
    }
}

fn to_location(place: &Place) -> NormalizedLocation {
    let mut location = AxisMap::new();
    for (axis, value) in place {
        location.set_pos(axis.clone(), NormalizedCoord::new((value * STEPS) as i32));
    }
    location
}

fn weight_value(weight: &Weight) -> f64 {
    weight
        .factors()
        .iter()
        .map(|factor| factor.numerator as f64 / factor.denominator as f64)
        .product()
}

/// A number of double precision, as point and as vector.
#[derive(Clone, Copy, Debug, PartialEq)]
struct Real(f64);

impl Vector for Real {
    fn spec_zero() -> Real {
        Real(0.0)
    }

    fn spec_plus(self, other: Real) -> Real {
        Real(self.0 + other.0)
    }

    fn spec_minus(self, other: Real) -> Real {
        Real(self.0 - other.0)
    }

    fn spec_scaled(self, weight: Weight) -> Real {
        Real(self.0 * weight_value(&weight))
    }

    fn law_zero(_a: Real) {}

    fn law_commutative(_a: Real, _b: Real) {}

    fn law_associative(_a: Real, _b: Real, _c: Real) {}

    fn law_minus(_a: Real, _b: Real) {}

    fn minus(&self, other: &Real) -> Real {
        Real(self.0 - other.0)
    }

    fn scaled(&self, weight: &Weight) -> Real {
        Real(self.0 * weight_value(weight))
    }
}

impl Point for Real {
    type Vector = Real;

    fn spec_origin() -> Real {
        Real(0.0)
    }

    fn spec_minus(self, other: Real) -> Real {
        Real(self.0 - other.0)
    }

    fn origin() -> Real {
        Real(0.0)
    }

    fn minus(&self, other: &Real) -> Real {
        Real(self.0 - other.0)
    }
}

/// The sort key in floating point, with the distances in steps so that keys
/// can be compared.
fn float_key(
    place: &Place,
    axis_order: &[String],
    on_axis: &BTreeSet<(String, i64)>,
) -> (usize, i64, Vec<usize>, Vec<String>, Vec<i8>, Vec<i64>) {
    let away: Vec<&String> = place
        .iter()
        .filter(|(_, value)| **value != 0.0)
        .map(|(axis, _)| axis)
        .collect();
    let hits = away
        .iter()
        .filter(|axis| on_axis.contains(&((**axis).clone(), (place[**axis] * STEPS) as i64)))
        .count();
    let mut known = Vec::new();
    let mut ordered = Vec::new();
    for (index, axis) in axis_order.iter().enumerate() {
        if place.get(axis).copied().unwrap_or(0.0) != 0.0 {
            known.push(index);
            ordered.push(axis.clone());
        }
    }
    for axis in &away {
        if !axis_order.contains(axis) {
            known.push(0x10000);
            ordered.push((*axis).clone());
        }
    }
    let signs = ordered
        .iter()
        .map(|axis| if place[axis] > 0.0 { 1 } else { -1 })
        .collect();
    let distances = ordered
        .iter()
        .map(|axis| (place[axis].abs() * STEPS) as i64)
        .collect();
    (away.len(), -(hits as i64), known, ordered, signs, distances)
}

fn float_height(tent: (f32, f32, f32), v: f32) -> Option<f32> {
    let (lower, peak, upper) = tent;
    let valid = lower <= peak && peak <= upper && !(lower < 0.0 && upper > 0.0);
    if !valid || v == peak || tent == (0.0, 0.0, 0.0) {
        return Some(1.0);
    }
    if v <= lower || upper <= v {
        return None;
    }
    let edge = if v < peak { lower } else { upper };
    Some((v - edge) / (peak - edge))
}

fn float_scalar(region: &Box3, place: &Place) -> f32 {
    let mut scalar = 1.0;
    for (axis, tent) in region {
        match float_height(*tent, place.get(axis).copied().unwrap_or(0.0)) {
            Some(height) => scalar *= height,
            None => return 0.0,
        }
    }
    scalar
}

/// The model in floating point: the places in order, their boxes, and the
/// weights of the places before each.
fn float_model(places: &[Place], axis_order: &[String]) -> (Vec<Place>, Vec<Box3>, Vec<Vec<(usize, f32)>>) {
    let mut full: Vec<Place> = Vec::new();
    for place in places {
        let mut place = place.clone();
        for axis in axis_order {
            place.entry(axis.clone()).or_insert(0.0);
        }
        if !full.contains(&place) {
            full.push(place);
        }
    }
    let mut on_axis = BTreeSet::new();
    for place in &full {
        let away: Vec<_> = place.iter().filter(|(_, value)| **value != 0.0).collect();
        if away.len() == 1 {
            on_axis.insert((away[0].0.clone(), (away[0].1 * STEPS) as i64));
        }
    }
    full.sort_by_cached_key(|place| float_key(place, axis_order, &on_axis));

    let mut extent: BTreeMap<String, (f32, f32)> = BTreeMap::new();
    for place in &full {
        for (axis, value) in place {
            let (least, greatest) = extent.entry(axis.clone()).or_insert((0.0, 0.0));
            *least = least.min(*value);
            *greatest = greatest.max(*value);
        }
    }
    let boxes: Vec<Box3> = full
        .iter()
        .map(|place| {
            place
                .iter()
                .map(|(axis, value)| {
                    let (least, greatest) = if *value == 0.0 { (0.0, 0.0) } else { extent[axis] };
                    let tent = if *value > 0.0 {
                        (0.0, *value, greatest)
                    } else {
                        (least, *value, 0.0)
                    };
                    (axis.clone(), tent)
                })
                .collect()
        })
        .collect();

    let mut influence: Vec<Box3> = Vec::new();
    for (i, start) in boxes.iter().enumerate() {
        let mut current = start.clone();
        for earlier in &boxes[..i] {
            if !current.keys().eq(earlier.keys()) {
                continue;
            }
            let overlap = current.iter().all(|(axis, tent)| {
                let peak = earlier[axis].1;
                peak == tent.1 || (tent.0 < peak && peak < tent.2)
            });
            if !overlap {
                continue;
            }
            let mut best = -1.0_f32;
            let mut cuts: Vec<(String, (f32, f32, f32))> = Vec::new();
            for (axis, tent) in &current {
                let peak = earlier[axis].1;
                let (ratio, cut) = if peak < tent.1 {
                    ((peak - tent.1) / (tent.0 - tent.1), (peak, tent.1, tent.2))
                } else if peak > tent.1 {
                    ((peak - tent.1) / (tent.2 - tent.1), (tent.0, tent.1, peak))
                } else {
                    continue;
                };
                if ratio > best {
                    cuts.clear();
                    best = ratio;
                }
                if ratio == best {
                    cuts.push((axis.clone(), cut));
                }
            }
            for (axis, cut) in cuts {
                current.insert(axis, cut);
            }
        }
        influence.push(current);
    }

    let weights = full
        .iter()
        .enumerate()
        .map(|(k, place)| {
            influence[..k]
                .iter()
                .enumerate()
                .map(|(j, region)| (j, float_scalar(region, place)))
                .filter(|(_, scalar)| *scalar != 0.0)
                .collect()
        })
        .collect();
    (full, influence, weights)
}

fn random_family(dice: &mut Dice) -> (Vec<Place>, Vec<String>) {
    let names = ["wght", "wdth", "opsz", "slnt"];
    let values = [-1.0, -0.75, -0.5, -0.25, 0.0, 0.0, 0.25, 0.5, 0.75, 1.0];
    let axes = 1 + dice.roll(3);
    let mut axis_order: Vec<String> = names[..axes].iter().map(|name| name.to_string()).collect();
    if dice.roll(2) == 1 {
        axis_order.reverse();
    }
    let masters = 1 + dice.roll(9);
    let mut places = Vec::new();
    if dice.roll(4) != 0 {
        places.push(Place::new());
    }
    for _ in 0..masters {
        let mut place = Place::new();
        for axis in &axis_order {
            if dice.roll(5) != 0 {
                place.insert(axis.clone(), values[dice.roll(values.len())]);
            }
        }
        places.push(place);
    }
    (places, axis_order)
}

#[test]
fn model_agrees_with_floating_point() {
    let mut dice = Dice(2023);
    let mut weighed = 0;
    let mut clipped = 0;
    for _ in 0..3000 {
        let (places, axis_order) = random_family(&mut dice);
        let (full, influence, weights) = float_model(&places, &axis_order);
        let locations = places.iter().map(to_location).collect();
        let model = VariationModel::new(locations, axis_order.clone()).unwrap();

        let expected: Vec<NormalizedLocation> = full.iter().map(to_location).collect();
        assert_eq!(model.locations(), &expected, "{places:?} {axis_order:?}");

        for (region, expected) in model.influence().iter().zip(&influence) {
            assert_eq!(region.len(), expected.len());
            for (axis, tent) in expected {
                let found = region.get(axis).unwrap();
                let steps = |value: f32| (value * STEPS) as i32;
                assert_eq!(
                    (found.lower.0, found.peak.0, found.upper.0),
                    (steps(tent.0), steps(tent.1), steps(tent.2)),
                    "{places:?} {axis_order:?}"
                );
                if tent.0 != 0.0 && tent.2 != 0.0 {
                    clipped += 1;
                }
            }
        }

        assert_eq!(model.delta_weights().len(), weights.len());
        for (row, expected) in model.delta_weights().iter().zip(&weights) {
            assert_eq!(row.len(), expected.len(), "{places:?} {axis_order:?}");
            for ((master, weight), (other, scalar)) in row.iter().zip(expected) {
                assert_eq!(master, other);
                assert!((weight_value(weight) - *scalar as f64).abs() < 1e-6);
                assert_eq!(weight.is_one(), *scalar == 1.0);
                if !weight.is_one() {
                    weighed += 1;
                }
            }
        }

        // deltas: every master but some has points, the default always
        let points: Vec<Option<Vec<f64>>> = full
            .iter()
            .map(|place| {
                if place.values().all(|value| *value == 0.0) || dice.roll(6) != 0 {
                    Some((0..3).map(|_| dice.roll(2000) as f64 - 1000.0).collect())
                } else {
                    None
                }
            })
            .collect();
        let point_seqs: Vec<(NormalizedLocation, Vec<Real>)> = expected
            .iter()
            .zip(&points)
            .filter_map(|(location, points)| {
                points
                    .as_ref()
                    .map(|points| (location.clone(), points.iter().map(|x| Real(*x)).collect()))
            })
            .collect();
        let has_default = full
            .first()
            .is_some_and(|place| place.values().all(|value| *value == 0.0));
        let deltas = model.deltas(&point_seqs);
        if !has_default {
            assert!(deltas.is_err());
            continue;
        }
        let deltas = deltas.unwrap();
        let mut float_deltas: Vec<Option<Vec<f64>>> = Vec::new();
        for (k, points) in points.iter().enumerate() {
            let delta = points.as_ref().map(|points| {
                points
                    .iter()
                    .enumerate()
                    .map(|(index, point)| {
                        let mut delta = *point;
                        for (j, scalar) in &weights[k] {
                            if let Some(earlier) = &float_deltas[*j] {
                                delta -= earlier[index] * *scalar as f64;
                            }
                        }
                        delta
                    })
                    .collect::<Vec<f64>>()
            });
            float_deltas.push(delta);
        }
        let with_deltas: Vec<(&NormalizedLocation, &Vec<f64>)> = expected
            .iter()
            .zip(&float_deltas)
            .filter_map(|(location, delta)| delta.as_ref().map(|delta| (location, delta)))
            .collect();
        assert_eq!(deltas.len(), with_deltas.len());
        for ((location, delta), (other, expected)) in deltas.iter().zip(with_deltas) {
            assert_eq!(location, other);
            for (found, wanted) in delta.iter().zip(expected) {
                assert!((found.0 - wanted).abs() < 1e-3, "{found:?} {wanted}");
            }
        }
    }
    // the families must have put the rules to work
    assert!(weighed > 1000, "{weighed}");
    assert!(clipped > 1000, "{clipped}");
}
