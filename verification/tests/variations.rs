use fontmodel::axes::AxisMap;
use fontmodel::coords::{NormalizedCoord, NormalizedLocation};
use fontmodel::tent::{Tent, VariationRegion};
use fontmodel::variations::VariationModel;
use fontmodel::weight::Weight;

/// The grid of the tests: 2^26 steps to the unit, which holds every
/// coordinate of the tests exactly.
const STEPS: f64 = 67108864.0;

fn coord(value: f32) -> NormalizedCoord {
    let steps = value as f64 * STEPS;
    assert_eq!(steps, steps.trunc(), "{value} is not on the grid");
    NormalizedCoord::new(steps as i32)
}

fn norm_loc(positions: &[(&str, f32)]) -> NormalizedLocation {
    let mut location = AxisMap::new();
    for (axis_name, value) in positions {
        location.set_pos(axis_name.to_string(), coord(*value));
    }
    location
}

fn tent(lower: f32, peak: f32, upper: f32) -> Tent {
    Tent::from((coord(lower).0, coord(peak).0, coord(upper).0))
}

/// The weight as the nearest single-precision number.
fn value(weight: &Weight) -> f32 {
    let mut numerator = 1.0_f64;
    let mut denominator = 1.0_f64;
    for factor in weight.factors() {
        numerator *= factor.numerator as f64;
        denominator *= factor.denominator as f64;
    }
    (numerator / denominator) as f32
}

fn weights(model: &VariationModel) -> Vec<Vec<(usize, f32)>> {
    model
        .delta_weights()
        .iter()
        .map(|row| row.iter().map(|(index, weight)| (*index, value(weight))).collect())
        .collect()
}

fn default_master_weight() -> Vec<(usize, f32)> {
    // no locations are contributing deltas
    Vec::new()
}

#[test]
fn scalar_at_default_for_default() {
    let loc = NormalizedLocation::new();
    assert_eq!(1.0, value(&VariationRegion::new().scalar_at(&loc)));
}

#[test]
fn scalar_at_off_default_for_default() {
    let loc = norm_loc(&[("Weight", 0.2)]);
    assert_eq!(1.0, value(&VariationRegion::new().scalar_at(&loc)));
}

#[test]
fn scalar_at_off_default_for_simple_weight() {
    let loc = norm_loc(&[("Weight", 0.2)]);
    let mut region = VariationRegion::new();
    region.insert("Weight".to_string(), tent(0.0, 2.0, 3.0));
    assert_eq!(0.1, value(&region.scalar_at(&loc)));
}

#[test]
fn scalar_at_for_weight() {
    let loc = norm_loc(&[("Weight", 2.5)]);
    let mut region = VariationRegion::new();
    region.insert("Weight".to_string(), tent(0.0, 2.0, 4.0));
    assert_eq!(0.75, value(&region.scalar_at(&loc)));
}

#[test]
fn scalar_at_for_weight_width_fixup() {
    let loc = norm_loc(&[("Weight", 2.5), ("Width", 0.0)]);
    let mut region = VariationRegion::new();
    region.insert("Weight".to_string(), tent(0.0, 2.0, 4.0));
    region.insert("Width".to_string(), tent(-1.0, 0.0, 1.0));
    assert_eq!(0.75, value(&region.scalar_at(&loc)));
}

#[test]
fn scalar_at_for_weight_width_corner() {
    let loc = norm_loc(&[("Weight", 1.0), ("Width", 1.0)]);
    let mut region = VariationRegion::new();
    region.insert("Weight".to_string(), tent(0.0, 1.0, 1.0));
    assert_eq!(1.0, value(&region.scalar_at(&loc)));
}

#[test]
fn delta_weights_for_static_family_one_axis() {
    let loc = NormalizedLocation::new();
    let locations = vec![loc];
    let axis_order = vec!["Weight".to_string()];
    let model = VariationModel::new(locations, axis_order).unwrap();

    assert_eq!(&vec![norm_loc(&[("Weight", 0.0)])], model.locations());
    assert_eq!(vec![default_master_weight()], weights(&model));
}

#[test]
fn delta_weights_for_static_family_many_axes() {
    let loc = norm_loc(&[("Weight", 0.0), ("Italic", 0.0), ("Width", 0.0)]);
    let locations = vec![loc.clone()];
    let axis_order = vec![
        "Width".to_string(),
        "Weight".to_string(),
        "Italic".to_string(),
    ];
    let model = VariationModel::new(locations, axis_order).unwrap();

    assert_eq!(&vec![loc], model.locations());
    assert_eq!(vec![default_master_weight()], weights(&model));
}

#[test]
fn delta_weights_for_2_master_weight_variable_family() {
    let weight_0 = norm_loc(&[("Weight", 0.0)]);
    let weight_1 = norm_loc(&[("Weight", 1.0)]);
    let locations = vec![weight_1.clone(), weight_0.clone()];
    let axis_order = vec!["Weight".to_string()];
    let model = VariationModel::new(locations, axis_order).unwrap();

    assert_eq!(&vec![weight_0, weight_1], model.locations());
    assert_eq!(
        vec![default_master_weight(), vec![(0_usize, 1.0)]],
        weights(&model)
    );
}

#[test]
fn delta_weights_for_3_master_weight_variable_family() {
    let weight_minus_1 = norm_loc(&[("Weight", -1.0)]);
    let weight_0 = norm_loc(&[("Weight", 0.0)]);
    let weight_1 = norm_loc(&[("Weight", 1.0)]);
    let locations = vec![weight_1.clone(), weight_0.clone(), weight_minus_1.clone()];
    let axis_order = vec!["Weight".to_string()];
    let model = VariationModel::new(locations, axis_order).unwrap();

    assert_eq!(&vec![weight_0, weight_minus_1, weight_1], model.locations());
    assert_eq!(
        vec![
            default_master_weight(),
            vec![(0_usize, 1.0)],
            vec![(0_usize, 1.0)]
        ],
        weights(&model)
    );
}

#[test]
fn delta_weights_for_corner_master_weight_width_family() {
    let wght0_wdth0 = norm_loc(&[("Weight", 0.0), ("Width", 0.0)]);
    let wght0_wdth1 = norm_loc(&[("Weight", 0.0), ("Width", 1.0)]);
    let wght1_wdth0 = norm_loc(&[("Weight", 1.0), ("Width", 0.0)]);
    let wght1_wdth1 = norm_loc(&[("Weight", 1.0), ("Width", 1.0)]);
    let locations = vec![
        wght0_wdth0.clone(),
        wght0_wdth1.clone(),
        wght1_wdth0.clone(),
        wght1_wdth1.clone(),
    ];
    let axis_order = vec!["Weight".to_string(), "Width".to_string()];
    let model = VariationModel::new(locations, axis_order).unwrap();

    assert_eq!(
        &vec![wght0_wdth0, wght1_wdth0, wght0_wdth1, wght1_wdth1],
        model.locations()
    );
    assert_eq!(
        vec![
            default_master_weight(),
            vec![(0_usize, 1.0)],
            vec![(0_usize, 1.0)],
            vec![(0_usize, 1.0), (1_usize, 1.0), (2_usize, 1.0)],
        ],
        weights(&model)
    );
}

#[test]
fn delta_weights_for_corner_default_and_fixup_master_weight_width_family() {
    let default_master = norm_loc(&[("Weight", 0.0), ("Width", 0.0)]);
    let min_wght_min_wdth = norm_loc(&[("Weight", -1.0), ("Width", -1.0)]);
    let min_wght_max_wdth = norm_loc(&[("Weight", -1.0), ("Width", 1.0)]);
    let max_wght_min_wdth = norm_loc(&[("Weight", 1.0), ("Width", -1.0)]);
    let max_wght_max_wdth = norm_loc(&[("Weight", 1.0), ("Width", 1.0)]);
    let fixup = norm_loc(&[("Weight", 0.5), ("Width", 0.5)]);
    let locations = vec![
        // Default master
        default_master.clone(),
        // Corners: the far ends of each axis
        max_wght_max_wdth.clone(),
        max_wght_min_wdth.clone(),
        min_wght_max_wdth.clone(),
        min_wght_min_wdth.clone(),
        // A fixup or knockout
        fixup.clone(),
    ];
    let axis_order = vec!["Weight".to_string(), "Width".to_string()];
    let model = VariationModel::new(locations, axis_order).unwrap();

    assert_eq!(
        &vec![
            default_master,
            min_wght_min_wdth,
            min_wght_max_wdth,
            max_wght_min_wdth,
            fixup,
            max_wght_max_wdth
        ],
        model.locations()
    );
    assert_eq!(
        vec![
            default_master_weight(),
            vec![(0_usize, 1.0)],
            vec![(0_usize, 1.0)],
            vec![(0_usize, 1.0)],
            vec![(0_usize, 1.0)],
            vec![(0_usize, 1.0)],
        ],
        weights(&model)
    );
}

#[test]
fn delta_weights_for_many_master_weight_width_family() {
    let locations = vec![
        norm_loc(&[("Weight", 0.55), ("Width", 0.0)]),
        norm_loc(&[("Weight", -0.55), ("Width", 0.0)]),
        norm_loc(&[("Weight", -1.0), ("Width", 0.0)]),
        norm_loc(&[("Weight", 0.0), ("Width", 1.0)]),
        norm_loc(&[("Weight", 0.66), ("Width", 1.0)]),
        norm_loc(&[("Weight", 0.66), ("Width", 0.66)]),
        norm_loc(&[("Weight", 0.0), ("Width", 0.0)]),
        norm_loc(&[("Weight", 1.0), ("Width", 1.0)]),
        norm_loc(&[("Weight", 1.0), ("Width", 0.0)]),
    ];
    let axis_order = vec!["Weight".to_string(), "Width".to_string()];
    let model = VariationModel::new(locations, axis_order).unwrap();

    assert_eq!(
        &vec![
            norm_loc(&[("Weight", 0.0), ("Width", 0.0)]),
            norm_loc(&[("Weight", -0.55), ("Width", 0.0)]),
            norm_loc(&[("Weight", -1.0), ("Width", 0.0)]),
            norm_loc(&[("Weight", 0.55), ("Width", 0.0)]),
            norm_loc(&[("Weight", 1.0), ("Width", 0.0)]),
            norm_loc(&[("Weight", 0.0), ("Width", 1.0)]),
            norm_loc(&[("Weight", 1.0), ("Width", 1.0)]),
            norm_loc(&[("Weight", 0.66), ("Width", 1.0)]),
            norm_loc(&[("Weight", 0.66), ("Width", 0.66)]),
        ],
        model.locations()
    );

    assert_eq!(
        vec![
            default_master_weight(),
            vec![(0_usize, 1.0)],
            vec![(0_usize, 1.0)],
            vec![(0_usize, 1.0)],
            vec![(0_usize, 1.0)],
            vec![(0_usize, 1.0)],
            vec![(0_usize, 1.0), (4_usize, 1.0), (5_usize, 1.0)],
            vec![
                (0_usize, 1.0),
                (3_usize, 0.7555555),
                (4_usize, 0.24444449),
                (5_usize, 1.0),
                (6_usize, 0.66)
            ],
            vec![
                (0_usize, 1.0),
                (3_usize, 0.7555555),
                (4_usize, 0.24444449),
                (5_usize, 0.66),
                (6_usize, 0.43560004),
                (7_usize, 0.66)
            ],
        ],
        weights(&model)
    );
}

#[test]
fn delta_weights_for_foo_bar_family_case_1() {
    let locations = vec![
        norm_loc(&[("foo", 0.0), ("bar", 0.0)]),
        norm_loc(&[("foo", 0.0), ("bar", 0.5)]),
        norm_loc(&[("foo", 0.0), ("bar", 1.0)]),
        norm_loc(&[("foo", 1.0), ("bar", 0.0)]),
        norm_loc(&[("foo", 1.0), ("bar", 0.5)]),
        norm_loc(&[("foo", 1.0), ("bar", 1.0)]),
    ];
    let axis_order = vec!["bar".to_string(), "foo".to_string()];
    let model = VariationModel::new(locations, axis_order).unwrap();

    assert_eq!(
        &vec![
            norm_loc(&[("foo", 0.0), ("bar", 0.0)]),
            norm_loc(&[("foo", 0.0), ("bar", 0.5)]),
            norm_loc(&[("foo", 0.0), ("bar", 1.0)]),
            norm_loc(&[("foo", 1.0), ("bar", 0.0)]),
            norm_loc(&[("foo", 1.0), ("bar", 0.5)]),
            norm_loc(&[("foo", 1.0), ("bar", 1.0)]),
        ],
        model.locations()
    );
    assert_eq!(
        vec![
            default_master_weight(),
            vec![(0_usize, 1.0)],
            vec![(0_usize, 1.0)],
            vec![(0_usize, 1.0)],
            vec![(0_usize, 1.0), (1_usize, 1.0), (3_usize, 1.0)],
            vec![(0_usize, 1.0), (2_usize, 1.0), (3_usize, 1.0)],
        ],
        weights(&model)
    );
}

#[test]
fn delta_weights_for_foo_bar_family_case_2() {
    let locations = vec![
        norm_loc(&[("foo", 0.0), ("bar", 0.0)]),
        norm_loc(&[("foo", 0.25), ("bar", 0.0)]),
        norm_loc(&[("foo", 0.5), ("bar", 0.0)]),
        norm_loc(&[("foo", 0.75), ("bar", 0.0)]),
        norm_loc(&[("foo", 1.0), ("bar", 0.0)]),
        norm_loc(&[("foo", 0.0), ("bar", 0.25)]),
        norm_loc(&[("foo", 0.0), ("bar", 0.75)]),
        norm_loc(&[("foo", 0.0), ("bar", 1.0)]),
    ];
    let axis_order = vec!["bar".to_string(), "foo".to_string()];
    let model = VariationModel::new(locations, axis_order).unwrap();

    assert_eq!(
        &vec![
            norm_loc(&[("foo", 0.0), ("bar", 0.0)]),
            norm_loc(&[("foo", 0.0), ("bar", 0.25)]),
            norm_loc(&[("foo", 0.0), ("bar", 0.75)]),
            norm_loc(&[("foo", 0.0), ("bar", 1.0)]),
            norm_loc(&[("foo", 0.25), ("bar", 0.0)]),
            norm_loc(&[("foo", 0.5), ("bar", 0.0)]),
            norm_loc(&[("foo", 0.75), ("bar", 0.0)]),
            norm_loc(&[("foo", 1.0), ("bar", 0.0)]),
        ],
        model.locations()
    );
    assert_eq!(
        vec![
            default_master_weight(),
            vec![(0_usize, 1.0)],
            vec![(0_usize, 1.0), (1_usize, 0.33333334)],
            vec![(0_usize, 1.0)],
            vec![(0_usize, 1.0)],
            vec![(0_usize, 1.0), (4_usize, 0.6666667)],
            vec![(0_usize, 1.0), (4_usize, 0.33333334), (5_usize, 0.5)],
            vec![(0_usize, 1.0)],
        ],
        weights(&model)
    );
}
