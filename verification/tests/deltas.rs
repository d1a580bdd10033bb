use fontmodel::axes::AxisMap;
use fontmodel::coords::{NormalizedCoord, NormalizedLocation};
use fontmodel::variations::{DeltaError, VariationModel};
use fontmodel::vector::{Point, Vector};
use fontmodel::weight::Weight;

/// The grid of the tests: 2^26 steps to the unit.
const STEPS: f64 = 67108864.0;

fn norm_loc(positions: &[(&str, f32)]) -> NormalizedLocation {
    let mut location = AxisMap::new();
    for (axis_name, value) in positions {
        let steps = *value as f64 * STEPS;
        assert_eq!(steps, steps.trunc(), "{value} is not on the grid");
        location.set_pos(axis_name.to_string(), NormalizedCoord::new(steps as i32));
    }
    location
}

/// What a location holds, in an order that sorts like the location.
fn entries(location: &NormalizedLocation) -> Vec<(String, i32)> {
    (0..location.len())
        .map(|i| (location.name_at(i).clone(), location.value_at(i).0))
        .collect()
}

fn value(weight: &Weight) -> f64 {
    let mut value = 1.0_f64;
    for factor in weight.factors() {
        value = value * factor.numerator as f64 / factor.denominator as f64;
    }
    value
}

/// A point of the plane.
#[derive(Clone, Copy, Debug, PartialEq)]
struct Point2(kurbo::Point);

/// A displacement in the plane.
#[derive(Clone, Copy, Debug, PartialEq)]
struct Vec2(kurbo::Vec2);

impl Point2 {
    fn new(x: f64, y: f64) -> Point2 {
        Point2(kurbo::Point::new(x, y))
    }
}

impl Vec2 {
    fn new(x: f64, y: f64) -> Vec2 {
        Vec2(kurbo::Vec2::new(x, y))
    }
}

impl Vector for Vec2 {
    fn spec_zero() -> Vec2 {
        Vec2(kurbo::Vec2::ZERO)
    }

    fn spec_plus(self, other: Vec2) -> Vec2 {
        Vec2(self.0 + other.0)
    }

    fn spec_minus(self, other: Vec2) -> Vec2 {
        Vec2(self.0 - other.0)
    }

    fn spec_scaled(self, weight: Weight) -> Vec2 {
        Vec2(self.0 * value(&weight))
    }

    fn law_zero(_a: Vec2) {}

    fn law_commutative(_a: Vec2, _b: Vec2) {}

    fn law_associative(_a: Vec2, _b: Vec2, _c: Vec2) {}

    fn law_minus(_a: Vec2, _b: Vec2) {}

    fn minus(&self, other: &Vec2) -> Vec2 {
        Vec2(self.0 - other.0)
    }

    fn scaled(&self, weight: &Weight) -> Vec2 {
        Vec2(self.0 * value(weight))
    }
}

impl Point for Point2 {
    type Vector = Vec2;

    fn spec_origin() -> Point2 {
        Point2(kurbo::Point::default())
    }

    fn spec_minus(self, other: Point2) -> Vec2 {
        Vec2(self.0 - other.0)
    }

    fn origin() -> Point2 {
        Point2(kurbo::Point::default())
    }

    fn minus(&self, other: &Point2) -> Vec2 {
        Vec2(self.0 - other.0)
    }
}

/// A number on a line, as point and as displacement.
#[derive(Clone, Copy, Debug, PartialEq)]
struct Number(f64);

impl Vector for Number {
    fn spec_zero() -> Number {
        Number(0.0)
    }

    fn spec_plus(self, other: Number) -> Number {
        Number(self.0 + other.0)
    }

    fn spec_minus(self, other: Number) -> Number {
        Number(self.0 - other.0)
    }

    fn spec_scaled(self, weight: Weight) -> Number {
        Number(self.0 * value(&weight))
    }

    fn law_zero(_a: Number) {}

    fn law_commutative(_a: Number, _b: Number) {}

    fn law_associative(_a: Number, _b: Number, _c: Number) {}

    fn law_minus(_a: Number, _b: Number) {}

    fn minus(&self, other: &Number) -> Number {
        Number(self.0 - other.0)
    }

    fn scaled(&self, weight: &Weight) -> Number {
        Number(self.0 * value(weight))
    }
}

impl Point for Number {
    type Vector = Number;

    fn spec_origin() -> Number {
        Number(0.0)
    }

    fn spec_minus(self, other: Number) -> Number {
        Number(self.0 - other.0)
    }

    fn origin() -> Number {
        Number(0.0)
    }

    fn minus(&self, other: &Number) -> Number {
        Number(self.0 - other.0)
    }
}

#[test]
fn compute_simple_delta_corner_masters() {
    let origin = norm_loc(&[("wght", 0.0), ("wdth", 0.0)]);
    let max_wght = norm_loc(&[("wght", 1.0), ("wdth", 0.0)]);
    let max_wdth = norm_loc(&[("wght", 0.0), ("wdth", 1.0)]);
    let max_wght_wdth = norm_loc(&[("wght", 1.0), ("wdth", 1.0)]);
    let locations = vec![
        origin.clone(),
        max_wght.clone(),
        max_wdth.clone(),
        max_wght_wdth.clone(),
    ];
    let axis_order = vec!["wght".to_string(), "wdth".to_string()];
    let model = VariationModel::new(locations, axis_order).unwrap();

    let point_seqs = vec![
        (origin.clone(), vec![Point2::new(10.0, 10.0)]),
        (max_wght.clone(), vec![Point2::new(12.0, 11.0)]),
        (max_wdth.clone(), vec![Point2::new(11.0, 12.0)]),
        (max_wght_wdth.clone(), vec![Point2::new(14.0, 11.0)]),
    ];

    let mut deltas: Vec<_> = model.deltas(&point_seqs).unwrap().into_iter().collect();
    deltas.sort_by_key(|(loc, _)| entries(loc));

    assert_eq!(
        vec![
            // default
            (origin, vec![Vec2::new(10.0, 10.0)]),
            // at max weight/width no other master has influence so it's just delta from default
            (max_wght, vec![Vec2::new(2.0, 1.0)]),
            (max_wdth, vec![Vec2::new(1.0, 2.0)]),
            // at max wdth and wght the deltas for max_wght and max_wdth are in full effect
            // so we get (10+2+1, 10+1+2) "for free" and our delta is from there to (14, 11)
            (max_wght_wdth, vec![Vec2::new(1.0, -2.0)]),
        ],
        deltas
    );
}

#[test]
fn compute_1d_deltas() {
    let origin = norm_loc(&[("wght", 0.0)]);
    let max_wght = norm_loc(&[("wght", 1.0)]);
    let min_wght = norm_loc(&[("wght", -1.0)]);
    let locations = vec![origin.clone(), max_wght.clone(), min_wght.clone()];
    let axis_order = vec!["wght".to_string()];
    let model = VariationModel::new(locations, axis_order).unwrap();

    let point_seqs = vec![
        (origin.clone(), vec![Number(10.0)]),
        (max_wght.clone(), vec![Number(12.0)]),
        (min_wght.clone(), vec![Number(5.0)]),
    ];

    let mut deltas: Vec<_> = model.deltas(&point_seqs).unwrap().into_iter().collect();
    deltas.sort_by_key(|(loc, _)| entries(loc));
    assert_eq!(
        vec![
            (min_wght, vec![Number(-5.0)]),
            (origin, vec![Number(10.0)]),
            (max_wght, vec![Number(2.0)]),
        ],
        deltas
    );
}

#[test]
fn deltas_without_default_are_refused() {
    let origin = norm_loc(&[("wght", 0.0)]);
    let max_wght = norm_loc(&[("wght", 1.0)]);
    let model =
        VariationModel::new(vec![origin, max_wght.clone()], vec!["wght".to_string()]).unwrap();
    let point_seqs = vec![(max_wght, vec![12_i64])];
    assert!(matches!(
        model.deltas(&point_seqs),
        Err(DeltaError::DefaultUndefined)
    ));
}

#[test]
fn deltas_of_uneven_lengths_are_refused() {
    let origin = norm_loc(&[("wght", 0.0)]);
    let max_wght = norm_loc(&[("wght", 1.0)]);
    let model = VariationModel::new(
        vec![origin.clone(), max_wght.clone()],
        vec!["wght".to_string()],
    )
    .unwrap();
    let point_seqs = vec![(origin, vec![10_i64, 20]), (max_wght, vec![12_i64])];
    assert!(matches!(
        model.deltas(&point_seqs),
        Err(DeltaError::InconsistentNumbersOfPoints)
    ));
}
