//! The influence of one master at one location, as an exact number.

use vstd::prelude::*;

verus! {

/// A fraction of two whole numbers that is at least zero and less than one.
#[derive(Clone, Copy, Debug, PartialEq, Eq, Structural)]
pub struct Fraction {
    pub numerator: u32,
    pub denominator: u32,
}

impl Fraction {
    /// The numerator is less than the denominator.
    pub open spec fn proper(self) -> bool {
        self.numerator < self.denominator
    }

    /// The fraction zero.
    pub open spec fn zero() -> Fraction {
        Fraction { numerator: 0, denominator: 1 }
    }
}

/// Every fraction of the sequence is proper.
pub open spec fn all_proper(factors: Seq<Fraction>) -> bool {
    forall|i: int| 0 <= i < factors.len() ==> (#[trigger] factors[i]).proper()
}

/// The product of the numerators of `factors`.
pub open spec fn numerator_of(factors: Seq<Fraction>) -> nat
    decreases factors.len(),
{
    if factors.len() == 0 {
        1
    } else {
        numerator_of(factors.drop_last()) * (factors.last().numerator as nat)
    }
}

/// The product of the denominators of `factors`.
pub open spec fn denominator_of(factors: Seq<Fraction>) -> nat
    decreases factors.len(),
{
    if factors.len() == 0 {
        1
    } else {
        denominator_of(factors.drop_last()) * (factors.last().denominator as nat)
    }
}

/// A product of proper fractions is at most one, and it is one only where
/// there are no factors; its denominator is never zero.
pub proof fn lemma_product_bounds(factors: Seq<Fraction>)
    requires
        all_proper(factors),
    ensures
        denominator_of(factors) > 0,
        numerator_of(factors) <= denominator_of(factors),
        numerator_of(factors) == denominator_of(factors) <==> factors.len() == 0,
    decreases factors.len(),
{
    if factors.len() > 0 {
        let front = factors.drop_last();
        let last = factors.last();
        assert(last.proper());
        assert(all_proper(front)) by {
            assert forall|i: int| 0 <= i < front.len() implies (#[trigger] front[i]).proper() by {
                assert(front[i] == factors[i]);
            }
        }
        lemma_product_bounds(front);
        let n = numerator_of(front);
        let d = denominator_of(front);
        let ln = last.numerator as nat;
        let ld = last.denominator as nat;
        assert(d * ld > 0) by (nonlinear_arith)
            requires
                d > 0,
                ld > 0,
        ;
        assert(n * ln < d * ld) by (nonlinear_arith)
            requires
                n <= d,
                ln < ld,
                d > 0,
        ;
    }
}

/// A product of proper fractions is zero exactly where one of them is.
pub proof fn lemma_product_zero(factors: Seq<Fraction>)
    ensures
        numerator_of(factors) == 0 <==> exists|i: int|
            0 <= i < factors.len() && (#[trigger] factors[i]).numerator == 0,
    decreases factors.len(),
{
    if factors.len() > 0 {
        let front = factors.drop_last();
        let last = factors.last();
        lemma_product_zero(front);
        let n = numerator_of(front);
        let ln = last.numerator as nat;
        assert(n * ln == 0 <==> (n == 0 || ln == 0)) by (nonlinear_arith);
        if n == 0 {
            let i = choose|i: int| 0 <= i < front.len() && (#[trigger] front[i]).numerator == 0;
            assert(factors[i] == front[i]);
        }
        if ln == 0 {
            assert(factors[factors.len() - 1].numerator == 0);
        }
        if exists|i: int| 0 <= i < factors.len() && (#[trigger] factors[i]).numerator == 0 {
            let i = choose|i: int| 0 <= i < factors.len() && (#[trigger] factors[i]).numerator == 0;
            if i < front.len() {
                assert(front[i] == factors[i]);
            }
        }
    }
}

/// More factors make the denominator of a product no smaller.
pub proof fn lemma_denominator_grows(factors: Seq<Fraction>, n: int)
    requires
        all_proper(factors),
        0 <= n <= factors.len(),
    ensures
        0 < denominator_of(factors.take(n)) <= denominator_of(factors),
    decreases factors.len() - n,
{
    assert(all_proper(factors.take(n))) by {
        assert forall|i: int| 0 <= i < n implies (#[trigger] factors.take(n)[i]).proper() by {
            assert(factors.take(n)[i] == factors[i]);
        }
    }
    lemma_product_bounds(factors.take(n));
    if n < factors.len() {
        lemma_denominator_grows(factors, n + 1);
        assert(factors.take(n + 1).drop_last() =~= factors.take(n));
        assert(factors.take(n + 1).last() == factors[n]);
        assert(factors[n].proper());
        let d = denominator_of(factors.take(n));
        let last = factors[n].denominator as nat;
        assert(d <= d * last) by (nonlinear_arith)
            requires
                last >= 1,
        ;
    } else {
        assert(factors.take(n) =~= factors);
    }
}

/// How much of a master's delta applies at a location: a number from zero to
/// one, held as the product of proper fractions that it was computed as.
///
/// The factors are kept as they are, so the weight is exact whatever the
/// number of axes; [`Weight::to_ratio`] multiplies them out where the result
/// fits. The weight without factors is one.
#[derive(Debug)]
pub struct Weight {
    factors: Vec<Fraction>,
}

impl View for Weight {
    type V = Seq<Fraction>;

    closed spec fn view(&self) -> Seq<Fraction> {
        self.factors@
    }
}

impl Weight {
    /// Every factor of a weight is a proper fraction.
    #[verifier::type_invariant]
    pub closed spec fn well_formed(&self) -> bool {
        all_proper(self@)
    }

    /// What [`Weight::well_formed`] says of the factors.
    pub proof fn lemma_well_formed(&self)
        requires
            self.well_formed(),
        ensures
            all_proper(self@),
    {
    }

    /// The weight one.
    pub fn one() -> (weight: Weight)
        ensures
            weight@ == Seq::<Fraction>::empty(),
    {
        Weight { factors: Vec::new() }
    }

    /// The weight zero.
    pub fn zero() -> (weight: Weight)
        ensures
            weight@ == seq![Fraction::zero()],
    {
        let mut factors = Vec::new();
        factors.push(Fraction { numerator: 0, denominator: 1 });
        assert(factors@ =~= seq![Fraction::zero()]);
        Weight { factors }
    }

    /// The weight that is the product of `factors`, which are known to be proper.
    pub fn product(factors: Vec<Fraction>) -> (weight: Weight)
        requires
            all_proper(factors@),
        ensures
            weight@ == factors@,
    {
        Weight { factors }
    }

    /// The weight that is the product of `factors`, if each of them is proper.
    pub fn from_factors(factors: Vec<Fraction>) -> (weight: Option<Weight>)
        ensures
            weight.is_some() == all_proper(factors@),
            weight matches Some(w) ==> w@ == factors@,
    {
        let mut i: usize = 0;
        while i < factors.len()
            invariant
                i <= factors.len(),
                forall|k: int| 0 <= k < i ==> (#[trigger] factors@[k]).proper(),
            decreases factors.len() - i,
        {
            if factors[i].numerator >= factors[i].denominator {
                return None;
            }
            i += 1;
        }
        Some(Weight { factors })
    }

    /// The factors whose product the weight is.
    pub fn factors(&self) -> (factors: &Vec<Fraction>)
        ensures
            factors@ == self@,
    {
        &self.factors
    }

    /// The numerator and the denominator of the weight, multiplied out, if
    /// the denominator does not exceed what a `u128` holds.
    pub fn to_ratio(&self) -> (ratio: Option<(u128, u128)>)
        ensures
            match ratio {
                Some((numerator, denominator)) => numerator == numerator_of(self@) && denominator
                    == denominator_of(self@),
                None => denominator_of(self@) > u128::MAX,
            },
    {
        proof {
            use_type_invariant(self);
        }
        let mut numerator: u128 = 1;
        let mut denominator: u128 = 1;
        let mut i: usize = 0;
        assert(self@.take(0) =~= Seq::<Fraction>::empty());
        while i < self.factors.len()
            invariant
                i <= self@.len(),
                self@ == self.factors@,
                all_proper(self@),
                numerator == numerator_of(self@.take(i as int)),
                denominator == denominator_of(self@.take(i as int)),
                numerator <= denominator,
            decreases self@.len() - i,
        {
            let factor = self.factors[i];
            proof {
                assert(self@.take(i + 1).drop_last() =~= self@.take(i as int));
                assert(self@.take(i + 1).last() == factor);
                assert(factor.proper());
            }
            match denominator.checked_mul(factor.denominator as u128) {
                None => {
                    proof {
                        lemma_denominator_grows(self@, i + 1);
                    }
                    return None;
                },
                Some(product) => {
                    assert(numerator * factor.numerator <= denominator * factor.denominator)
                        by (nonlinear_arith)
                        requires
                            numerator <= denominator,
                            factor.numerator < factor.denominator,
                    ;
                    numerator = numerator * (factor.numerator as u128);
                    denominator = product;
                },
            }
            i += 1;
        }
        assert(self@.take(i as int) =~= self@);
        Some((numerator, denominator))
    }

    /// Whether the weight is zero.
    pub fn is_zero(&self) -> (zero: bool)
        ensures
            zero == (numerator_of(self@) == 0),
    {
        proof {
            lemma_product_zero(self@);
        }
        let mut i: usize = 0;
        while i < self.factors.len()
            invariant
                i <= self.factors.len(),
                forall|k: int| 0 <= k < i ==> (#[trigger] self@[k]).numerator != 0,
                numerator_of(self@) == 0 <==> exists|k: int|
                    0 <= k < self@.len() && (#[trigger] self@[k]).numerator == 0,
            decreases self.factors.len() - i,
        {
            if self.factors[i].numerator == 0 {
                assert(self@[i as int].numerator == 0);
                return true;
            }
            i += 1;
        }
        false
    }

    /// Whether the weight is one.
    pub fn is_one(&self) -> (one: bool)
        ensures
            one == (numerator_of(self@) == denominator_of(self@)),
            one == (self@.len() == 0),
    {
        proof {
            use_type_invariant(self);
            lemma_product_bounds(self@);
        }
        self.factors.len() == 0
    }
}

impl Clone for Weight {
    fn clone(&self) -> (copy: Self)
        ensures
            copy@ == self@,
    {
        proof {
            use_type_invariant(self);
        }
        let mut factors: Vec<Fraction> = Vec::new();
        let mut i: usize = 0;
        while i < self.factors.len()
            invariant
                i <= self.factors.len(),
                factors@ == self.factors@.take(i as int),
            decreases self.factors.len() - i,
        {
            factors.push(self.factors[i]);
            assert(self.factors@.take(i + 1) =~= self.factors@.take(i as int).push(
                self.factors@[i as int],
            ));
            i += 1;
        }
        assert(self.factors@.take(i as int) =~= self.factors@);
        Weight { factors }
    }
}

} // verus!
