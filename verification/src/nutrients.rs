//! Nutrient totals and the arithmetic that scales a product's values by a
//! quantity and a serving multiplier.

use vstd::prelude::*;
use crate::amount::Amount;
use crate::catalog::{Product, ProductView};

verus! {

/// Calories, proteins and minerals as mathematical integers, in billionths:
/// each is a product of three counts of thousandths.
pub struct Intake {
    pub calories: int,
    pub proteins: int,
    pub minerals: int,
}

impl Intake {
    /// No intake.
    pub open spec fn zero() -> Intake {
        Intake { calories: 0, proteins: 0, minerals: 0 }
    }

    /// The sum of two intakes, nutrient by nutrient.
    pub open spec fn plus(self, other: Intake) -> Intake {
        Intake {
            calories: self.calories + other.calories,
            proteins: self.proteins + other.proteins,
            minerals: self.minerals + other.minerals,
        }
    }

    /// Whether each nutrient is a value of `i128`.
    pub open spec fn fits(self) -> bool {
        &&& i128::MIN <= self.calories <= i128::MAX
        &&& i128::MIN <= self.proteins <= i128::MAX
        &&& i128::MIN <= self.minerals <= i128::MAX
    }

    /// Whether each nutrient is at most `bound` in magnitude.
    pub open spec fn within(self, bound: int) -> bool {
        &&& -bound <= self.calories <= bound
        &&& -bound <= self.proteins <= bound
        &&& -bound <= self.minerals <= bound
    }
}

/// Calories, proteins and minerals, in billionths.
#[derive(Clone, Copy, Debug, PartialEq, Eq, Structural)]
pub struct Nutrients {
    pub calories: i128,
    pub proteins: i128,
    pub minerals: i128,
}

impl View for Nutrients {
    type V = Intake;

    open spec fn view(&self) -> Intake {
        Intake {
            calories: self.calories as int,
            proteins: self.proteins as int,
            minerals: self.minerals as int,
        }
    }
}

/// The greatest magnitude of a product of three counts of thousandths.
pub open spec fn term_bound() -> int {
    0x2000_0000_0000_0000_0000_0000
}

/// What `quantity` units of a product contribute in a meal of `servings`
/// servings: each value of the product times the quantity times the
/// servings, and nothing where there is no product.
pub open spec fn contribution(product: Option<ProductView>, quantity: Amount, servings: Amount) -> Intake {
    match product {
        Some(p) => Intake {
            calories: p.calories.value() * quantity.value() * servings.value(),
            proteins: p.proteins.value() * quantity.value() * servings.value(),
            minerals: p.minerals.value() * quantity.value() * servings.value(),
        },
        None => Intake::zero(),
    }
}

/// The sum of `terms`.
pub open spec fn sum(terms: Seq<Intake>) -> Intake
    decreases terms.len(),
{
    if terms.len() == 0 {
        Intake::zero()
    } else {
        sum(terms.drop_last()).plus(terms.last())
    }
}

/// Whether the sum of `terms` can be computed term by term in `i128`: the
/// sum of each prefix fits.
pub open spec fn running_fits(terms: Seq<Intake>) -> bool {
    forall|k: int| 0 <= k <= terms.len() ==> (#[trigger] sum(terms.take(k))).fits()
}

/// The product of three values of `i32` is at most `term_bound()` in
/// magnitude.
pub proof fn lemma_product_bound(a: int, b: int, c: int)
    requires
        i32::MIN <= a <= i32::MAX,
        i32::MIN <= b <= i32::MAX,
        i32::MIN <= c <= i32::MAX,
    ensures
        -0x4000_0000_0000_0000 <= a * b <= 0x4000_0000_0000_0000,
        -term_bound() <= a * b * c <= term_bound(),
{
    assert(-0x4000_0000_0000_0000 <= a * b <= 0x4000_0000_0000_0000) by (nonlinear_arith)
        requires
            -0x8000_0000 <= a <= 0x8000_0000,
            -0x8000_0000 <= b <= 0x8000_0000,
    ;
    let ab = a * b;
    assert(-0x2000_0000_0000_0000_0000_0000 <= ab * c <= 0x2000_0000_0000_0000_0000_0000)
        by (nonlinear_arith)
        requires
            -0x4000_0000_0000_0000 <= ab <= 0x4000_0000_0000_0000,
            -0x8000_0000 <= c <= 0x8000_0000,
    ;
}

/// A contribution is at most `term_bound()` in magnitude.
pub proof fn lemma_contribution_bound(product: Option<ProductView>, quantity: Amount, servings: Amount)
    ensures
        contribution(product, quantity, servings).within(term_bound()),
{
    match product {
        Some(p) => {
            lemma_product_bound(p.calories.value(), quantity.value(), servings.value());
            lemma_product_bound(p.proteins.value(), quantity.value(), servings.value());
            lemma_product_bound(p.minerals.value(), quantity.value(), servings.value());
        },
        None => {},
    }
}

/// The sum of two sequences put end to end is the sum of their sums.
pub proof fn lemma_sum_concat(a: Seq<Intake>, b: Seq<Intake>)
    ensures
        sum(a + b) == sum(a).plus(sum(b)),
    decreases b.len(),
{
    if b.len() == 0 {
        assert(a + b =~= a);
    } else {
        lemma_sum_concat(a, b.drop_last());
        assert((a + b).drop_last() =~= a + b.drop_last());
        assert((a + b).last() == b.last());
    }
}

/// The sum of terms of bounded magnitude is bounded by their number times
/// the bound.
pub proof fn lemma_sum_bound(terms: Seq<Intake>, bound: int)
    requires
        0 <= bound,
        forall|i: int| 0 <= i < terms.len() ==> (#[trigger] terms[i]).within(bound),
    ensures
        sum(terms).within(terms.len() * bound),
    decreases terms.len(),
{
    if terms.len() > 0 {
        let front = terms.drop_last();
        assert forall|i: int| 0 <= i < front.len() implies (#[trigger] front[i]).within(bound) by {
            assert(terms[i].within(bound));
        }
        lemma_sum_bound(front, bound);
        assert(terms.last().within(bound));
        assert(front.len() * bound + bound == terms.len() * bound) by (nonlinear_arith)
            requires
                front.len() + 1 == terms.len(),
        ;
    } else {
        assert(terms.len() * bound == 0) by (nonlinear_arith)
            requires
                terms.len() == 0,
        ;
    }
}

/// Up to 2^33 contributions can always be summed term by term in `i128`.
pub proof fn lemma_bounded_terms_fit(terms: Seq<Intake>)
    requires
        terms.len() <= 0x2_0000_0000,
        forall|i: int| 0 <= i < terms.len() ==> (#[trigger] terms[i]).within(term_bound()),
    ensures
        running_fits(terms),
{
    assert forall|k: int| 0 <= k <= terms.len() implies (#[trigger] sum(terms.take(k))).fits() by {
        let prefix = terms.take(k);
        assert forall|i: int| 0 <= i < prefix.len() implies (#[trigger] prefix[i]).within(
            term_bound(),
        ) by {
            assert(terms[i].within(term_bound()));
        }
        lemma_sum_bound(prefix, term_bound());
        assert(prefix.len() * term_bound() <= 0x2_0000_0000 * term_bound()) by (nonlinear_arith)
            requires
                prefix.len() <= 0x2_0000_0000,
                term_bound() >= 0,
        ;
    }
}

/// The product in an `Option` as a mathematical value.
pub open spec fn facts_of(product: Option<&Product>) -> Option<ProductView> {
    match product {
        Some(p) => Some(p@),
        None => None,
    }
}

impl Nutrients {
    /// No intake.
    pub fn zero() -> (n: Nutrients)
        ensures
            n@ == Intake::zero(),
    {
        Nutrients { calories: 0, proteins: 0, minerals: 0 }
    }

    /// What `quantity` units of `product` contribute in a meal of `servings`
    /// servings; nothing where there is no product.
    pub fn of_item(product: Option<&Product>, quantity: Amount, servings: Amount) -> (n: Nutrients)
        ensures
            n@ == contribution(facts_of(product), quantity, servings),
    {
        match product {
            Some(p) => {
                proof {
                    lemma_product_bound(p.calories.value(), quantity.value(), servings.value());
                    lemma_product_bound(p.proteins.value(), quantity.value(), servings.value());
                    lemma_product_bound(p.minerals.value(), quantity.value(), servings.value());
                }
                let q: i128 = quantity.millis as i128;
                let s: i128 = servings.millis as i128;
                Nutrients {
                    calories: (p.calories.millis as i128) * q * s,
                    proteins: (p.proteins.millis as i128) * q * s,
                    minerals: (p.minerals.millis as i128) * q * s,
                }
            },
            None => Nutrients::zero(),
        }
    }

    /// The sum of two intakes, where each nutrient of it is a value of
    /// `i128`.
    pub fn checked_plus(&self, other: &Nutrients) -> (r: Option<Nutrients>)
        ensures
            match r {
                Some(n) => n@ == self@.plus(other@),
                None => !self@.plus(other@).fits(),
            },
    {
        let calories: i128 = match self.calories.checked_add(other.calories) {
            Some(v) => v,
            None => {
                return None;
            },
        };
        let proteins: i128 = match self.proteins.checked_add(other.proteins) {
            Some(v) => v,
            None => {
                return None;
            },
        };
        let minerals: i128 = match self.minerals.checked_add(other.minerals) {
            Some(v) => v,
            None => {
                return None;
            },
        };
        Some(Nutrients { calories, proteins, minerals })
    }
}

} // verus!
