use fontmodel::axes::AxisMap;
use fontmodel::coords::{NormalizedCoord, NormalizedLocation};
use fontmodel::regions::{clip, master_influence, regions_for};
use fontmodel::sorting::LocationSortingHat;
use fontmodel::tent::{Tent, VariationRegion};
use fontmodel::variations::{delta_weights, VariationModel, VariationModelError};
use fontmodel::vector::Vector;
use fontmodel::weight::{Fraction, Weight};

/// A location on a grid of 100 steps to the unit.
fn at(positions: &[(&str, i32)]) -> NormalizedLocation {
    let mut location = AxisMap::new();
    for (axis_name, steps) in positions {
        location.set_pos(axis_name.to_string(), NormalizedCoord::new(*steps));
    }
    location
}

fn tent(lower: i32, peak: i32, upper: i32) -> Tent {
    Tent {
        lower: NormalizedCoord(lower),
        peak: NormalizedCoord(peak),
        upper: NormalizedCoord(upper),
    }
}

fn region(tents: &[(&str, Tent)]) -> VariationRegion {
    let mut region = AxisMap::new();
    for (axis_name, tent) in tents {
        region.insert(axis_name.to_string(), *tent);
    }
    region
}

fn tents(region: &VariationRegion) -> Vec<(String, Tent)> {
    (0..region.len())
        .map(|i| (region.name_at(i).clone(), region.value_at(i)))
        .collect()
}

fn axes(names: &[&str]) -> Vec<String> {
    names.iter().map(|name| name.to_string()).collect()
}

fn fractions(weight: &Weight) -> Vec<(u32, u32)> {
    weight
        .factors()
        .iter()
        .map(|factor| (factor.numerator, factor.denominator))
        .collect()
}

fn table(model: &VariationModel) -> Vec<Vec<(usize, Vec<(u32, u32)>)>> {
    model
        .delta_weights()
        .iter()
        .map(|row| row.iter().map(|(index, weight)| (*index, fractions(weight))).collect())
        .collect()
}

/// The masters of a family with a master in the middle of each axis and one
/// in the middle of the plane.
fn family() -> Vec<NormalizedLocation> {
    vec![
        at(&[("wght", 100), ("wdth", 100)]),
        at(&[("wght", 50), ("wdth", 50)]),
        at(&[("wght", 0), ("wdth", 100)]),
        at(&[("wght", 100), ("wdth", 0)]),
        at(&[("wght", 0), ("wdth", 0)]),
        at(&[("wght", 50), ("wdth", 0)]),
        at(&[("wght", -100), ("wdth", 0)]),
    ]
}

#[test]
fn default_comes_first() {
    let model = VariationModel::new(family(), axes(&["wght", "wdth"])).unwrap();
    assert_eq!(model.locations()[0], at(&[("wght", 0), ("wdth", 0)]));
    assert_eq!(&model.locations()[0], model.default_location());
    assert!(model.delta_weights()[0].is_empty());
}

#[test]
fn model_without_default_master_starts_with_another() {
    let model = VariationModel::new(vec![at(&[("wght", 100)])], axes(&["wght"])).unwrap();
    assert_eq!(model.default_location(), &at(&[("wght", 0)]));
    assert_eq!(model.locations(), &vec![at(&[("wght", 100)])]);
    assert!(model.delta_weights()[0].is_empty());
}

#[test]
fn order_of_inputs_does_not_matter() {
    let forward = VariationModel::new(family(), axes(&["wght", "wdth"])).unwrap();
    let mut reversed = family();
    reversed.reverse();
    let backward = VariationModel::new(reversed, axes(&["wght", "wdth"])).unwrap();
    assert_eq!(forward.locations(), backward.locations());
    assert_eq!(table(&forward), table(&backward));
    assert_eq!(
        forward.locations(),
        &vec![
            at(&[("wght", 0), ("wdth", 0)]),
            at(&[("wght", -100), ("wdth", 0)]),
            at(&[("wght", 50), ("wdth", 0)]),
            at(&[("wght", 100), ("wdth", 0)]),
            at(&[("wght", 0), ("wdth", 100)]),
            // masters lie at 100 on each axis alone, but at 50 only on wght
            at(&[("wght", 100), ("wdth", 100)]),
            at(&[("wght", 50), ("wdth", 50)]),
        ]
    );
}

#[test]
fn locations_are_completed_and_counted_once() {
    let locations = vec![
        at(&[("wght", 100)]),
        at(&[]),
        at(&[("wdth", 0), ("wght", 100)]),
        at(&[("wdth", 0)]),
    ];
    let model = VariationModel::new(locations, axes(&["wght", "wdth"])).unwrap();
    assert_eq!(
        model.locations(),
        &vec![
            at(&[("wght", 0), ("wdth", 0)]),
            at(&[("wght", 100), ("wdth", 0)])
        ]
    );
    assert_eq!(model.influence().len(), 2);
    assert_eq!(model.delta_weights().len(), 2);
}

#[test]
fn axes_without_order_are_refused() {
    let locations = vec![
        at(&[("wght", 100)]),
        at(&[("wght", 0), ("slnt", 10), ("opsz", 0)]),
        at(&[("ital", 100)]),
    ];
    match VariationModel::new(locations, axes(&["wght", "wdth"])) {
        Err(VariationModelError::AxesWithoutAssignedOrder {
            axis_names,
            location,
        }) => {
            assert_eq!(axis_names, axes(&["opsz", "slnt"]));
            assert_eq!(location, at(&[("wght", 0), ("slnt", 10), ("opsz", 0)]));
        }
        Ok(_) => panic!("a location with unknown axes was accepted"),
    }
}

#[test]
fn empty_model_has_nothing() {
    let model = VariationModel::empty();
    assert!(model.locations().is_empty());
    assert!(model.influence().is_empty());
    assert!(model.delta_weights().is_empty());
    assert_eq!(model.default_location(), &at(&[]));
    let no_axes = VariationModel::new(Vec::new(), Vec::new()).unwrap();
    assert!(no_axes.locations().is_empty());
}

#[test]
fn model_from_parts_is_the_model() {
    let model = VariationModel::new(family(), axes(&["wght", "wdth"])).unwrap();
    let again = VariationModel::from_parts(
        model.default_location().clone(),
        model.locations().clone(),
        model.influence().clone(),
    )
    .unwrap();
    assert_eq!(again, model);
    assert_eq!(again.locations(), model.locations());
    assert_eq!(table(&again), table(&model));
    assert_eq!(model.clone(), model);
    assert_eq!(table(&model.clone()), table(&model));
    assert_ne!(model, VariationModel::empty());
    let other = VariationModel::new(family(), axes(&["wdth", "wght"])).unwrap();
    assert_ne!(model, other);
    assert!(VariationModel::from_parts(at(&[]), vec![at(&[])], Vec::new()).is_none());
}

#[test]
fn regions_reach_to_the_farthest_master() {
    let locations = vec![
        at(&[("wght", 0), ("wdth", 0)]),
        at(&[("wght", -100), ("wdth", 0)]),
        at(&[("wght", 50), ("wdth", 0)]),
        at(&[("wght", 100), ("wdth", 70)]),
    ];
    let regions = regions_for(&locations);
    assert_eq!(regions.len(), 4);
    let always_on = tent(0, 0, 0);
    assert_eq!(
        tents(&regions[0]),
        vec![("wdth".to_string(), always_on), ("wght".to_string(), always_on)]
    );
    assert_eq!(
        tents(&regions[1]),
        vec![
            ("wdth".to_string(), always_on),
            ("wght".to_string(), tent(-100, -100, 0))
        ]
    );
    assert_eq!(
        tents(&regions[2]),
        vec![
            ("wdth".to_string(), always_on),
            ("wght".to_string(), tent(0, 50, 100))
        ]
    );
    assert_eq!(
        tents(&regions[3]),
        vec![
            ("wdth".to_string(), tent(0, 70, 70)),
            ("wght".to_string(), tent(0, 100, 100))
        ]
    );
}

#[test]
fn clipping_takes_the_axis_with_the_greatest_ratio() {
    // on wght the earlier peak is 25 of 100 away, on wdth 50 of 100
    let mut current = region(&[("wght", tent(0, 100, 100)), ("wdth", tent(0, 100, 100))]);
    let earlier = region(&[("wght", tent(0, 75, 100)), ("wdth", tent(0, 50, 100))]);
    clip(&mut current, &earlier);
    assert_eq!(
        tents(&current),
        vec![
            ("wdth".to_string(), tent(50, 100, 100)),
            ("wght".to_string(), tent(0, 100, 100))
        ]
    );
}

#[test]
fn clipping_takes_every_axis_that_shares_the_greatest_ratio() {
    // 30 of 60 on wght and 50 of 100 on wdth are the same ratio
    let mut current = region(&[("wght", tent(0, 60, 100)), ("wdth", tent(-100, -100, 0))]);
    let earlier = region(&[("wght", tent(0, 30, 100)), ("wdth", tent(-100, -50, 0))]);
    clip(&mut current, &earlier);
    assert_eq!(
        tents(&current),
        vec![
            ("wdth".to_string(), tent(-100, -100, -50)),
            ("wght".to_string(), tent(30, 60, 100))
        ]
    );
}

#[test]
fn clipping_needs_the_same_axes_and_an_overlap() {
    let start = region(&[("wght", tent(0, 100, 100))]);

    let mut current = start.clone();
    clip(&mut current, &region(&[("wdth", tent(0, 50, 100))]));
    assert_eq!(current, start);

    // the earlier peak lies on the bound, not between the bounds
    let mut current = start.clone();
    clip(&mut current, &region(&[("wght", tent(0, 0, 0))]));
    assert_eq!(tents(&current), tents(&start));

    // the same peak cannot be cut off at
    let mut current = start.clone();
    clip(&mut current, &region(&[("wght", tent(0, 100, 100))]));
    assert_eq!(tents(&current), tents(&start));

    let mut current = start.clone();
    clip(&mut current, &region(&[("wght", tent(0, 40, 100))]));
    assert_eq!(tents(&current), vec![("wght".to_string(), tent(40, 100, 100))]);
}

#[test]
fn influence_is_clipped_by_the_masters_before() {
    let regions = vec![
        region(&[("wght", tent(0, 0, 0))]),
        region(&[("wght", tent(0, 50, 100))]),
        region(&[("wght", tent(0, 100, 100))]),
    ];
    let influence = master_influence(regions);
    assert_eq!(tents(&influence[0]), vec![("wght".to_string(), tent(0, 0, 0))]);
    assert_eq!(tents(&influence[1]), vec![("wght".to_string(), tent(0, 50, 100))]);
    assert_eq!(tents(&influence[2]), vec![("wght".to_string(), tent(50, 100, 100))]);
}

#[test]
fn delta_weights_hold_the_masters_with_influence() {
    let locations = vec![at(&[("wght", 0)]), at(&[("wght", 50)]), at(&[("wght", 75)])];
    let influence = vec![
        region(&[("wght", tent(0, 0, 0))]),
        region(&[("wght", tent(0, 50, 100))]),
        region(&[("wght", tent(50, 75, 100))]),
    ];
    let weights = delta_weights(&locations, &influence);
    let weights: Vec<Vec<(usize, Vec<(u32, u32)>)>> = weights
        .iter()
        .map(|row| row.iter().map(|(index, weight)| (*index, fractions(weight))).collect())
        .collect();
    assert_eq!(
        weights,
        vec![
            vec![],
            vec![(0, vec![])],
            // (100 - 75) / (100 - 50) of the master at 50
            vec![(0, vec![]), (1, vec![(25, 50)])],
        ]
    );
}

#[test]
fn sort_key_of_a_corner_master() {
    let locations = family();
    let hat = LocationSortingHat::new(&locations, axes(&["wght", "wdth"]));
    let key = hat.key_for(&at(&[("wght", 100), ("wdth", 100)]));
    assert_eq!(key.rank, 2);
    // masters lie at 100 on wght alone and at 100 on wdth alone
    assert_eq!(key.on_axis_points, -2);
    assert_eq!(key.known_axes, vec![0, 1]);
    assert_eq!(key.ordered_axes, axes(&["wght", "wdth"]));
    assert_eq!(key.axis_value_signs, vec![1, 1]);
    assert_eq!(key.axis_value_abs, vec![100, 100]);
}

#[test]
fn sort_key_of_a_master_off_the_known_axes() {
    let locations = vec![at(&[("wght", -30)])];
    let hat = LocationSortingHat::new(&locations, axes(&["wdth", "wght"]));
    let key = hat.key_for(&at(&[("zzzz", 7), ("wght", -30), ("aaaa", -1), ("wdth", 0)]));
    assert_eq!(key.rank, 3);
    assert_eq!(key.on_axis_points, -1);
    assert_eq!(key.known_axes, vec![1, 0x10000, 0x10000]);
    assert_eq!(key.ordered_axes, axes(&["wght", "aaaa", "zzzz"]));
    assert_eq!(key.axis_value_signs, vec![-1, -1, 1]);
    assert_eq!(key.axis_value_abs, vec![30, 1, 7]);
}

#[test]
fn sort_key_of_the_default_is_the_least() {
    let locations = family();
    let hat = LocationSortingHat::new(&locations, axes(&["wght", "wdth"]));
    let default = hat.key_for(&at(&[("wght", 0), ("wdth", 0)]));
    assert_eq!(default.rank, 0);
    assert_eq!(default.on_axis_points, 0);
    assert!(default.known_axes.is_empty());
    assert!(default.ordered_axes.is_empty());
    for location in &locations {
        let key = hat.key_for(location);
        assert_ne!(default.compare(&key), fontmodel::order::Order::Greater);
        assert_eq!(
            default.compare(&key) == fontmodel::order::Order::Equal,
            location == &at(&[("wght", 0), ("wdth", 0)])
        );
    }
}

#[test]
fn sorting_keeps_every_location() {
    let locations = family();
    let hat = LocationSortingHat::new(&locations, axes(&["wdth", "wght"]));
    let sorted = hat.sort(&locations);
    assert_eq!(sorted.len(), locations.len());
    for location in &locations {
        assert!(sorted.contains(location));
    }
    for pair in sorted.windows(2) {
        assert_eq!(
            hat.key_for(&pair[0]).compare(&hat.key_for(&pair[1])),
            fontmodel::order::Order::Less
        );
    }
}

#[test]
fn whole_numbers_scale_towards_zero() {
    let half = Weight::from_factors(vec![Fraction {
        numerator: 1,
        denominator: 2,
    }])
    .unwrap();
    assert_eq!(7_i64.scaled(&half), 3);
    assert_eq!((-7_i64).scaled(&half), -3);
    assert_eq!((7_i64, -8_i64).scaled(&half), (3, -4));
    let sixth = Weight::from_factors(vec![
        Fraction {
            numerator: 1,
            denominator: 2,
        },
        Fraction {
            numerator: 1,
            denominator: 3,
        },
    ])
    .unwrap();
    // 11 / 2 is 5, and 5 / 3 is 1
    assert_eq!(11_i64.scaled(&sixth), 1);
    assert_eq!(i64::MIN.scaled(&Weight::one()), i64::MIN);
    assert_eq!(i64::MAX.scaled(&Weight::zero()), 0);
    assert_eq!(i64::MIN.minus(&1), i64::MAX);
}

#[test]
fn deltas_of_whole_numbers_give_the_points_back() {
    let model = VariationModel::new(family(), axes(&["wght", "wdth"])).unwrap();
    let values: Vec<Vec<(i64, i64)>> = vec![
        vec![(100, 0), (7, -3)],
        vec![(90, 11), (8, -3)],
        vec![(103, 5), (33, 1)],
        vec![(120, -40), (2, 9)],
        vec![(77, 0), (1001, -77)],
        vec![(-5, 19), (0, 0)],
        vec![(64, 64), (-1, -1)],
    ];
    let point_seqs: Vec<(NormalizedLocation, Vec<(i64, i64)>)> = model
        .locations()
        .iter()
        .cloned()
        .zip(values.iter().cloned())
        .collect();
    let deltas = model.deltas(&point_seqs).unwrap();
    assert_eq!(deltas.len(), 7);
    // some master must be weighed by a fraction, or the test shows little
    assert!(table(&model)
        .iter()
        .any(|row| row.iter().any(|(_, factors)| !factors.is_empty())));
    for (master, (location, delta)) in deltas.iter().enumerate() {
        assert_eq!(location, &model.locations()[master]);
        for index in 0..2 {
            let mut rebuilt = (0_i64, 0_i64);
            rebuilt = (
                rebuilt.0.wrapping_add(delta[index].0),
                rebuilt.1.wrapping_add(delta[index].1),
            );
            for (earlier, weight) in &model.delta_weights()[master] {
                let share = if weight.is_one() {
                    deltas[*earlier].1[index]
                } else {
                    deltas[*earlier].1[index].scaled(weight)
                };
                rebuilt = (
                    rebuilt.0.wrapping_add(share.0),
                    rebuilt.1.wrapping_add(share.1),
                );
            }
            assert_eq!(rebuilt, values[master][index]);
        }
    }
}

#[test]
fn deltas_pass_over_masters_without_points() {
    let model = VariationModel::new(family(), axes(&["wght", "wdth"])).unwrap();
    let origin = at(&[("wght", 0), ("wdth", 0)]);
    let corner = at(&[("wght", 100), ("wdth", 100)]);
    let stranger = at(&[("wght", 1), ("wdth", 1)]);
    let point_seqs = vec![
        (corner.clone(), vec![14_i64]),
        (stranger, vec![1000_i64]),
        (origin.clone(), vec![10_i64]),
        (origin.clone(), vec![-1_i64]),
    ];
    let deltas = model.deltas(&point_seqs).unwrap();
    assert_eq!(deltas, vec![(origin, vec![10]), (corner, vec![4])]);
}

#[test]
fn sample_deltas_of_corner_masters() {
    let origin = at(&[("wght", 0), ("wdth", 0)]);
    let max_wght = at(&[("wght", 100), ("wdth", 0)]);
    let max_wdth = at(&[("wght", 0), ("wdth", 100)]);
    let max_wght_wdth = at(&[("wght", 100), ("wdth", 100)]);
    let model = VariationModel::new(
        vec![
            origin.clone(),
            max_wght.clone(),
            max_wdth.clone(),
            max_wght_wdth.clone(),
        ],
        axes(&["wght", "wdth"]),
    )
    .unwrap();
    let point_seqs = vec![
        (max_wght_wdth.clone(), vec![(14_i64, 11_i64)]),
        (max_wdth.clone(), vec![(11, 12)]),
        (max_wght.clone(), vec![(12, 11)]),
        (origin.clone(), vec![(10, 10)]),
    ];
    assert_eq!(
        model.deltas(&point_seqs).unwrap(),
        vec![
            (origin, vec![(10, 10)]),
            (max_wght, vec![(2, 1)]),
            (max_wdth, vec![(1, 2)]),
            (max_wght_wdth, vec![(1, -2)]),
        ]
    );
}
