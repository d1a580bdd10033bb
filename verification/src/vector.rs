//! What the values that a model interpolates must offer.
//!
//! A master gives a point for each place of what is interpolated: a
//! coordinate of an outline, an advance, a metric. The model turns points
//! into deltas, which are vectors. It subtracts points, subtracts vectors and
//! scales vectors by weights, and leaves the arithmetic to the two traits of
//! this module.

use crate::weight::{all_proper, Fraction, Weight};
use vstd::prelude::*;

verus! {

/// A displacement: the difference of two points.
///
/// The laws say that vectors under addition form a commutative group in which
/// subtraction undoes addition. Nothing is asked of scaling.
pub trait Vector: Sized {
    /// The vector that changes nothing when added.
    spec fn spec_zero() -> Self;

    /// The sum of two vectors.
    spec fn spec_plus(self, other: Self) -> Self;

    /// The difference of two vectors.
    spec fn spec_minus(self, other: Self) -> Self;

    /// The vector scaled by a weight.
    spec fn spec_scaled(self, weight: Weight) -> Self;

    /// Adding zero changes nothing.
    proof fn law_zero(a: Self)
        ensures
            Self::spec_zero().spec_plus(a) == a,
    ;

    /// The order of two summands does not matter.
    proof fn law_commutative(a: Self, b: Self)
        ensures
            a.spec_plus(b) == b.spec_plus(a),
    ;

    /// The grouping of summands does not matter.
    proof fn law_associative(a: Self, b: Self, c: Self)
        ensures
            a.spec_plus(b).spec_plus(c) == a.spec_plus(b.spec_plus(c)),
    ;

    /// Adding what was subtracted gives the vector back.
    proof fn law_minus(a: Self, b: Self)
        ensures
            a.spec_minus(b).spec_plus(b) == a,
    ;

    /// The difference of two vectors.
    fn minus(&self, other: &Self) -> (difference: Self)
        ensures
            difference == self.spec_minus(*other),
    ;

    /// The vector scaled by a weight.
    fn scaled(&self, weight: &Weight) -> (scaled: Self)
        ensures
            scaled == self.spec_scaled(*weight),
    ;
}

/// An absolute position or measure.
pub trait Point: Sized {
    /// What the difference of two points is.
    type Vector: Vector;

    /// The point that all points are measured from.
    spec fn spec_origin() -> Self;

    /// The displacement that leads from `other` to this point.
    spec fn spec_minus(self, other: Self) -> Self::Vector;

    /// The point that all points are measured from.
    fn origin() -> (origin: Self)
        ensures
            origin == Self::spec_origin(),
    ;

    /// The displacement that leads from `other` to this point.
    fn minus(&self, other: &Self) -> (difference: Self::Vector)
        ensures
            difference == self.spec_minus(*other),
    ;
}

/// A whole number scaled by a fraction, rounded towards zero.
pub open spec fn scale_once(value: int, factor: Fraction) -> int {
    if value >= 0 {
        (value * factor.numerator) / (factor.denominator as int)
    } else {
        -((-value * factor.numerator) / (factor.denominator as int))
    }
}

/// A whole number scaled by each of the factors in turn, each time rounded
/// towards zero.
pub open spec fn scale_by(value: int, factors: Seq<Fraction>) -> int
    decreases factors.len(),
{
    if factors.len() == 0 {
        value
    } else {
        scale_once(scale_by(value, factors.drop_last()), factors.last())
    }
}

/// Scaling by a proper fraction brings a number no farther from zero.
pub proof fn lemma_scale_once(value: int, factor: Fraction)
    requires
        factor.proper(),
    ensures
        value >= 0 ==> 0 <= scale_once(value, factor) <= value,
        value <= 0 ==> value <= scale_once(value, factor) <= 0,
{
    let n = factor.numerator as int;
    let d = factor.denominator as int;
    let v = if value >= 0 {
        value
    } else {
        -value
    };
    assert(0 <= v * n <= v * d) by (nonlinear_arith)
        requires
            0 <= v,
            0 <= n < d,
    ;
    assert(0 <= (v * n) / d <= v) by {
        vstd::arithmetic::div_mod::lemma_div_pos_is_pos(v * n, d);
        vstd::arithmetic::div_mod::lemma_div_is_ordered(v * n, v * d, d);
        vstd::arithmetic::div_mod::lemma_div_multiples_vanish(v, d);
    }
}

/// Whole numbers are vectors of one dimension. Sums and differences wrap
/// around at the bounds of the type, and scaling rounds towards zero after
/// each factor of the weight.
impl Vector for i64 {
    open spec fn spec_zero() -> i64 {
        0
    }

    open spec fn spec_plus(self, other: i64) -> i64 {
        vstd::wrapping::i64_specs::wrapping_add(self, other)
    }

    open spec fn spec_minus(self, other: i64) -> i64 {
        vstd::wrapping::i64_specs::wrapping_sub(self, other)
    }

    open spec fn spec_scaled(self, weight: Weight) -> i64 {
        scale_by(self as int, weight@) as i64
    }

    proof fn law_zero(a: i64) {
    }

    proof fn law_commutative(a: i64, b: i64) {
    }

    proof fn law_associative(a: i64, b: i64, c: i64) {
    }

    proof fn law_minus(a: i64, b: i64) {
    }

    fn minus(&self, other: &i64) -> (difference: i64) {
        self.wrapping_sub(*other)
    }

    fn scaled(&self, weight: &Weight) -> (scaled: i64) {
        let factors = weight.factors();
        proof {
            use_type_invariant(weight);
            weight.lemma_well_formed();
        }
        let mut value: i64 = *self;
        let mut i: usize = 0;
        assert(factors@.take(0) =~= Seq::<Fraction>::empty());
        while i < factors.len()
            invariant
                i <= factors.len(),
                all_proper(factors@),
                value == scale_by(*self as int, factors@.take(i as int)),
            decreases factors.len() - i,
        {
            let factor = factors[i];
            proof {
                assert(factors@.take(i + 1).drop_last() =~= factors@.take(i as int));
                assert(factors@.take(i + 1).last() == factor);
                assert(factor.proper());
                lemma_scale_once(value as int, factor);
            }
            let numerator = factor.numerator as i128;
            let denominator = factor.denominator as i128;
            if value >= 0 {
                assert(0 <= value * numerator <= 0x7fff_ffff_ffff_ffff * 0xffff_ffff)
                    by (nonlinear_arith)
                    requires
                        0 <= value <= 0x7fff_ffff_ffff_ffff,
                        0 <= numerator <= 0xffff_ffff,
                ;
                value = ((value as i128 * numerator) / denominator) as i64;
            } else {
                assert(0 <= (-value) * numerator <= 0x8000_0000_0000_0000 * 0xffff_ffff)
                    by (nonlinear_arith)
                    requires
                        0 <= -value <= 0x8000_0000_0000_0000,
                        0 <= numerator <= 0xffff_ffff,
                ;
                value = (-((-(value as i128) * numerator) / denominator)) as i64;
            }
            i += 1;
        }
        assert(factors@.take(i as int) =~= factors@);
        value
    }
}

/// Whole numbers are points of one dimension, measured from zero.
impl Point for i64 {
    type Vector = i64;

    open spec fn spec_origin() -> i64 {
        0
    }

    open spec fn spec_minus(self, other: i64) -> i64 {
        vstd::wrapping::i64_specs::wrapping_sub(self, other)
    }

    fn origin() -> (origin: i64) {
        0
    }

    fn minus(&self, other: &i64) -> (difference: i64) {
        self.wrapping_sub(*other)
    }
}

/// Pairs of whole numbers are vectors of the plane, with the arithmetic of
/// whole numbers on each side.
impl Vector for (i64, i64) {
    open spec fn spec_zero() -> (i64, i64) {
        (0, 0)
    }

    open spec fn spec_plus(self, other: (i64, i64)) -> (i64, i64) {
        (Vector::spec_plus(self.0, other.0), Vector::spec_plus(self.1, other.1))
    }

    open spec fn spec_minus(self, other: (i64, i64)) -> (i64, i64) {
        (Vector::spec_minus(self.0, other.0), Vector::spec_minus(self.1, other.1))
    }

    open spec fn spec_scaled(self, weight: Weight) -> (i64, i64) {
        (Vector::spec_scaled(self.0, weight), Vector::spec_scaled(self.1, weight))
    }

    proof fn law_zero(a: (i64, i64)) {
    }

    proof fn law_commutative(a: (i64, i64), b: (i64, i64)) {
    }

    proof fn law_associative(a: (i64, i64), b: (i64, i64), c: (i64, i64)) {
    }

    proof fn law_minus(a: (i64, i64), b: (i64, i64)) {
    }

    fn minus(&self, other: &(i64, i64)) -> (difference: (i64, i64)) {
        (self.0.wrapping_sub(other.0), self.1.wrapping_sub(other.1))
    }

    fn scaled(&self, weight: &Weight) -> (scaled: (i64, i64)) {
        (Vector::scaled(&self.0, weight), Vector::scaled(&self.1, weight))
    }
}

/// Pairs of whole numbers are points of the plane, measured from `(0, 0)`.
impl Point for (i64, i64) {
    type Vector = (i64, i64);

    open spec fn spec_origin() -> (i64, i64) {
        (0, 0)
    }

    open spec fn spec_minus(self, other: (i64, i64)) -> (i64, i64) {
        (Vector::spec_minus(self.0, other.0), Vector::spec_minus(self.1, other.1))
    }

    fn origin() -> (origin: (i64, i64)) {
        (0, 0)
    }

    fn minus(&self, other: &(i64, i64)) -> (difference: (i64, i64)) {
        (self.0.wrapping_sub(other.0), self.1.wrapping_sub(other.1))
    }
}

} // verus!
