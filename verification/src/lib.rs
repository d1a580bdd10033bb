//! The mathematical core of a variable-font compiler, verified.
//!
//! Given the locations of the masters of a family in normalized design space,
//! this crate divides that space into regions of influence, computes how much
//! each master weighs at the location of every other, and turns the values
//! that the masters give for one place (a coordinate of an outline, a metric)
//! into the deltas of a variation store.
//!
//! All arithmetic is exact. Coordinates are whole numbers of steps on a grid
//! that the caller chooses, weights are products of fractions that are never
//! multiplied out, and the values to interpolate bring their own arithmetic
//! (see [`vector`]). Every function has a contract that Verus proves, and
//! [`laws`] holds what is proved of the parts together: that the default
//! master comes first, that the order of the masters is strict, and that
//! deltas give back the values that they were computed from.
//!
//! Beside the model stand a few smaller parts of a font compiler that are
//! verified in the same way: the kinds of token of feature files ([`token`]),
//! the verdict on the messages of a feature compilation ([`features`]) and
//! the making of names ([`naming`]).

pub mod axes;
pub mod coords;
pub mod features;
pub mod laws;
pub mod naming;
pub mod order;
pub mod regions;
pub mod sorting;
pub mod tent;
pub mod token;
pub mod variations;
pub mod vector;
pub mod weight;

pub use coords::{NormalizedCoord, NormalizedLocation};
pub use features::FeatureWork;
pub use tent::{Tent, VariationRegion};
pub use token::Kind;
pub use variations::{DeltaError, VariationModel, VariationModelError};
pub use vector::{Point, Vector};
pub use weight::{Fraction, Weight};
